//! Measured round-trip times per AWS region, and how they are rated.
use vstd::prelude::*;
use crate::ui::Tone;
use crate::text::{chars_of, seq_eq};

verus! {

/// The map that a list of (region, milliseconds) pairs describes; a later pair
/// for the same region replaces an earlier one.
pub open spec fn pairs_map(s: Seq<(String, u32)>) -> Map<Seq<char>, u32>
    decreases s.len(),
{
    if s.len() == 0 {
        Map::empty()
    } else {
        pairs_map(s.drop_last()).insert(s.last().0@, s.last().1)
    }
}

proof fn lemma_pairs_map_update_last(s: Seq<(String, u32)>, i: int, e: (String, u32))
    requires
        0 <= i < s.len(),
        s[i].0@ == e.0@,
        forall|j: int| i < j < s.len() ==> (#[trigger] s[j]).0@ != e.0@,
    ensures
        pairs_map(s.update(i, e)) == pairs_map(s).insert(e.0@, e.1),
    decreases s.len(),
{
    let t = s.update(i, e);
    if i == s.len() - 1 {
        assert(t.drop_last() =~= s.drop_last());
        assert(pairs_map(t) =~= pairs_map(s).insert(e.0@, e.1));
    } else {
        assert(t.drop_last() =~= s.drop_last().update(i, e));
        lemma_pairs_map_update_last(s.drop_last(), i, e);
        assert(s.last().0@ != e.0@);
        assert(pairs_map(t) =~= pairs_map(s).insert(e.0@, e.1));
    }
}

/// Milliseconds measured per AWS region code.
#[derive(Debug, Clone)]
pub struct PingMap {
    entries: Vec<(String, u32)>,
}

impl View for PingMap {
    type V = Map<Seq<char>, u32>;

    closed spec fn view(&self) -> Map<Seq<char>, u32> {
        pairs_map(self.entries@)
    }
}

impl PingMap {
    pub fn new() -> (r: PingMap)
        ensures
            r@ == Map::<Seq<char>, u32>::empty(),
    {
        PingMap { entries: Vec::new() }
    }

    /// The map of the given pairs, a later pair winning over an earlier one.
    pub fn from_entries(entries: Vec<(String, u32)>) -> (r: PingMap)
        ensures
            r@ == pairs_map(entries@),
    {
        PingMap { entries }
    }

    /// The pairs of the map, each region once.
    pub fn to_entries(&self) -> (r: Vec<(String, u32)>)
        ensures
            pairs_map(r@) == self@,
    {
        let mut out: Vec<(String, u32)> = Vec::new();
        let mut i: usize = 0;
        while i < self.entries.len()
            invariant
                0 <= i <= self.entries@.len(),
                out@ == self.entries@.take(i as int),
            decreases self.entries@.len() - i,
        {
            let k = self.entries[i].0.clone();
            let v = self.entries[i].1;
            out.push((k, v));
            assert(out@ =~= self.entries@.take(i + 1));
            i += 1;
        }
        assert(self.entries@.take(self.entries@.len() as int) =~= self.entries@);
        out
    }

    /// The milliseconds measured for `code`.
    pub fn get(&self, code: &str) -> (r: Option<u32>)
        ensures
            r == (if self@.dom().contains(code@) {
                Some(self@[code@])
            } else {
                None
            }),
    {
        let kv = chars_of(code);
        let ghost s = self.entries@;
        let ghost key = code@;
        let mut i = self.entries.len();
        assert(s.take(s.len() as int) =~= s);
        while i > 0
            invariant
                0 <= i <= s.len(),
                s == self.entries@,
                kv@ == key,
                key == code@,
                pairs_map(s.take(i as int)).dom().contains(key) == pairs_map(s).dom().contains(
                    key,
                ),
                pairs_map(s).dom().contains(key) ==> pairs_map(s.take(i as int))[key]
                    == pairs_map(s)[key],
            decreases i,
        {
            let w = chars_of(self.entries[i - 1].0.as_str());
            assert(s.take(i as int).drop_last() =~= s.take(i - 1));
            assert(s.take(i as int).last() == s[i - 1]);
            if seq_eq(&w, &kv) {
                assert(pairs_map(s.take(i as int)) == pairs_map(s.take(i - 1)).insert(
                    s[i - 1].0@,
                    s[i - 1].1,
                ));
                return Some(self.entries[i - 1].1);
            }
            assert(pairs_map(s.take(i as int)) == pairs_map(s.take(i - 1)).insert(
                s[i - 1].0@,
                s[i - 1].1,
            ));
            i -= 1;
        }
        assert(s.take(0) =~= Seq::<(String, u32)>::empty());
        None
    }

    /// Records `ms` for `code`, replacing what was there.
    pub fn insert(&mut self, code: String, ms: u32)
        ensures
            final(self)@ == old(self)@.insert(code@, ms),
    {
        let kv = chars_of(code.as_str());
        let ghost s = self.entries@;
        let mut i = self.entries.len();
        while i > 0
            invariant
                0 <= i <= s.len(),
                s == self.entries@,
                s == old(self).entries@,
                kv@ == code@,
                forall|j: int| i <= j < s.len() ==> (#[trigger] s[j]).0@ != code@,
            decreases i,
        {
            let w = chars_of(self.entries[i - 1].0.as_str());
            if seq_eq(&w, &kv) {
                let ghost e = (code, ms);
                proof {
                    lemma_pairs_map_update_last(s, i - 1, e);
                }
                self.entries.set(i - 1, (code, ms));
                assert(self.entries@ == s.update(i - 1, e));
                return;
            }
            i -= 1;
        }
        self.entries.push((code, ms));
        assert(self.entries@.drop_last() =~= s);
    }

    /// Whether nothing has been measured.
    pub fn is_empty(&self) -> (r: bool)
        ensures
            r == (self@.dom() == Set::<Seq<char>>::empty()),
    {
        if self.entries.len() == 0 {
            assert(self@.dom() =~= Set::<Seq<char>>::empty());
            true
        } else {
            assert(self@.dom().contains(self.entries@.last().0@));
            false
        }
    }

    /// Takes in new measurements: every region in `newer` gets its new value,
    /// every other region keeps the value it had.
    pub fn merge(&mut self, newer: &PingMap)
        ensures
            final(self)@ == old(self)@.union_prefer_right(newer@),
    {
        let ghost start = self@;
        let ghost s = newer.entries@;
        let mut i: usize = 0;
        assert(start.union_prefer_right(pairs_map(s.take(0))) =~= start);
        while i < newer.entries.len()
            invariant
                0 <= i <= s.len(),
                s == newer.entries@,
                self@ == start.union_prefer_right(pairs_map(s.take(i as int))),
            decreases s.len() - i,
        {
            let (k, v) = &newer.entries[i];
            let ghost before = self@;
            self.insert(k.clone(), *v);
            assert(s.take(i + 1).drop_last() =~= s.take(i as int));
            assert(s.take(i + 1).last() == s[i as int]);
            assert(self@ =~= start.union_prefer_right(pairs_map(s.take(i + 1))));
            i += 1;
        }
        assert(s.take(s.len() as int) =~= s);
    }
}

/// The colour of a ping: green up to 80 ms, yellow below 250 ms, red from
/// then on, grey when there is none.
pub open spec fn ping_tone(ms: Option<u32>) -> Tone {
    match ms {
        Some(p) => if p <= 80 {
            Tone::Green
        } else if p < 250 {
            Tone::Yellow
        } else {
            Tone::Red
        },
        None => Tone::DarkGray,
    }
}

pub fn color_for_ping(ms: Option<u32>) -> (r: Tone)
    ensures
        r == ping_tone(ms),
{
    match ms {
        Some(p) => if p <= 80 {
            Tone::Green
        } else if p < 250 {
            Tone::Yellow
        } else {
            Tone::Red
        },
        None => Tone::DarkGray,
    }
}

} // verus!
