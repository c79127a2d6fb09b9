//! Region locking by firewall: which AWS address ranges and Steam relays a
//! selection of regions blocks, and the shell script that applies the rules
//! (nftables where it is installed, else ipset and iptables).
use vstd::prelude::*;
use vstd::seq_lib::seq_to_set_distributes_over_add;
use crate::api::{all_regions, get_all_aws_regions};
use crate::best::lemma_filter_take;
use crate::text::{chars_of, str_eq, string_views, strictly_sorted, sort_dedup_strings, push_str, push_decimal, decimal, string_from_chars, subrange_chars};
use crate::app::UpdateHostsResult;

verus! {

/// The Steam relay sites (points of presence) that serve each AWS region.
pub open spec fn aws_to_sdr_table() -> Seq<(&'static str, Seq<&'static str>)> {
    seq![
        ("us-east-1", seq!["iad", "atl"]),
        ("us-east-2", seq!["ord", "dfw"]),
        ("us-west-1", seq!["lax"]),
        ("us-west-2", seq!["sea", "eat"]),
        ("ca-central-1", seq!["ord", "iad"]),
        ("eu-central-1", seq!["fra", "fsn", "vie", "waw"]),
        ("eu-west-1", seq!["ams", "hel", "sto", "sto2"]),
        ("eu-west-2", seq!["lhr", "par", "mad"]),
        ("sa-east-1", seq!["gru", "eze", "lim", "scl"]),
        ("ap-south-1", seq!["bom2", "maa2", "dxb"]),
        ("ap-east-1", seq!["hkg"]),
        ("ap-northeast-1", seq!["tyo"]),
        ("ap-northeast-2", seq!["seo"]),
        ("ap-southeast-1", seq!["sgp", "jnb"]),
        ("ap-southeast-2", seq!["syd"]),
    ]
}

pub open spec fn sdr_entry_view(e: (&'static str, Vec<&'static str>)) -> (&'static str, Seq<&'static str>) {
    (e.0, e.1@)
}

/// The relay sites of each AWS region.
pub fn get_aws_to_sdr_map() -> (r: Vec<(&'static str, Vec<&'static str>)>)
    ensures
        r@.map_values(|e: (&'static str, Vec<&'static str>)| sdr_entry_view(e)) == aws_to_sdr_table(),
{
    let mut r: Vec<(&'static str, Vec<&'static str>)> = Vec::new();
    r.push(("us-east-1", vec!["iad", "atl"]));
    r.push(("us-east-2", vec!["ord", "dfw"]));
    r.push(("us-west-1", vec!["lax"]));
    r.push(("us-west-2", vec!["sea", "eat"]));
    r.push(("ca-central-1", vec!["ord", "iad"]));
    r.push(("eu-central-1", vec!["fra", "fsn", "vie", "waw"]));
    r.push(("eu-west-1", vec!["ams", "hel", "sto", "sto2"]));
    r.push(("eu-west-2", vec!["lhr", "par", "mad"]));
    r.push(("sa-east-1", vec!["gru", "eze", "lim", "scl"]));
    r.push(("ap-south-1", vec!["bom2", "maa2", "dxb"]));
    r.push(("ap-east-1", vec!["hkg"]));
    r.push(("ap-northeast-1", vec!["tyo"]));
    r.push(("ap-northeast-2", vec!["seo"]));
    r.push(("ap-southeast-1", vec!["sgp", "jnb"]));
    r.push(("ap-southeast-2", vec!["syd"]));
    assert(r@.map_values(|e: (&'static str, Vec<&'static str>)| sdr_entry_view(e)) =~~= aws_to_sdr_table());
    r
}

/// The relay sites of an AWS region, where the table has it.
pub open spec fn sdr_lookup(t: Seq<(&'static str, Seq<&'static str>)>, code: Seq<char>) -> Option<Seq<&'static str>>
    decreases t.len(),
{
    if t.len() == 0 {
        None
    } else if t[0].0@ == code {
        Some(t[0].1)
    } else {
        sdr_lookup(t.drop_first(), code)
    }
}

pub open spec fn str_views(s: Seq<&'static str>) -> Seq<Seq<char>> {
    s.map_values(|x: &'static str| x@)
}

/// The relay sites that a selection of regions keeps open, region by region
/// in the order of the selection.
pub open spec fn allowed_pops_of(sel: Seq<Seq<char>>) -> Seq<Seq<char>>
    decreases sel.len(),
{
    if sel.len() == 0 {
        Seq::empty()
    } else {
        allowed_pops_of(sel.drop_last()) + match sdr_lookup(aws_to_sdr_table(), sel.last()) {
            Some(ps) => str_views(ps),
            None => Seq::empty(),
        }
    }
}

/// The AWS regions whose addresses a selection blocks: every region that is
/// not selected, in the table's order, except `us-east-1`, which hosts the
/// game's login services and stays reachable.
pub open spec fn regions_to_block_of(sel: Seq<Seq<char>>) -> Seq<Seq<char>> {
    str_views(all_regions()).filter(|r: Seq<char>| r != "us-east-1"@ && !sel.contains(r))
}

/// What a region lock does to the firewall.
#[derive(Debug, Clone, PartialEq, Eq)]
pub enum FirewallPlan {
    /// Remove every rule.
    Clear,
    /// Block the address ranges of `regions_to_block` and every Steam relay
    /// outside `allowed_pops`.
    Block { regions_to_block: Vec<String>, allowed_pops: Vec<String> },
}

/// The plan for a selection: none, or one that holds every region, clears
/// the rules; any other blocks.
pub open spec fn is_plan_for(selected: Option<Seq<Seq<char>>>, plan: FirewallPlan) -> bool {
    match selected {
        Some(sel) if sel.len() < all_regions().len() => match plan {
            FirewallPlan::Block { regions_to_block, allowed_pops } => {
                &&& string_views(regions_to_block@) == regions_to_block_of(sel)
                &&& string_views(allowed_pops@) == allowed_pops_of(sel)
            },
            FirewallPlan::Clear => false,
        },
        _ => plan is Clear,
    }
}

pub open spec fn opt_strings(o: Option<&[String]>) -> Option<Seq<Seq<char>>> {
    match o {
        Some(v) => Some(string_views(v@)),
        None => None,
    }
}

/// Whether `x` is one of the strings of `v`.
pub fn contains_string(v: &[String], x: &str) -> (r: bool)
    ensures
        r == string_views(v@).contains(x@),
{
    let mut i: usize = 0;
    while i < v.len()
        invariant
            0 <= i <= v@.len(),
            forall|k: int| 0 <= k < i ==> v@[k]@ != x@,
        decreases v@.len() - i,
    {
        if str_eq(v[i].as_str(), x) {
            assert(string_views(v@)[i as int] == x@);
            return true;
        }
        i += 1;
    }
    proof {
        if string_views(v@).contains(x@) {
            let k = choose|k: int| 0 <= k < string_views(v@).len() && string_views(v@)[k] == x@;
            assert(v@[k]@ == x@);
        }
    }
    false
}

fn sdr_pops_for<'a>(map: &'a Vec<(&'static str, Vec<&'static str>)>, code: &str) -> (r: Option<&'a Vec<&'static str>>)
    requires
        map@.map_values(|e: (&'static str, Vec<&'static str>)| sdr_entry_view(e)) == aws_to_sdr_table(),
    ensures
        match r {
            Some(v) => sdr_lookup(aws_to_sdr_table(), code@) == Some(v@),
            None => sdr_lookup(aws_to_sdr_table(), code@) is None,
        },
{
    let ghost t = aws_to_sdr_table();
    let mut i: usize = 0;
    assert(t.skip(0) =~= t);
    while i < map.len()
        invariant
            0 <= i <= map@.len(),
            map@.map_values(|e: (&'static str, Vec<&'static str>)| sdr_entry_view(e)) == t,
            t == aws_to_sdr_table(),
            sdr_lookup(t, code@) == sdr_lookup(t.skip(i as int), code@),
        decreases map@.len() - i,
    {
        assert(t.skip(i as int).drop_first() =~= t.skip(i + 1));
        assert(t[i as int] == sdr_entry_view(map@[i as int]));
        if str_eq(map[i].0, code) {
            return Some(&map[i].1);
        }
        i += 1;
    }
    None
}

/// What a region lock with `selected` regions does to the firewall.
pub fn firewall_plan(selected: Option<&[String]>) -> (r: FirewallPlan)
    ensures
        is_plan_for(opt_strings(selected), r),
{
    let all = get_all_aws_regions();
    let sel = match selected {
        Some(s) if s.len() < all.len() => s,
        _ => {
            return FirewallPlan::Clear;
        },
    };
    let ghost sv = string_views(sel@);
    let ghost keep = |r: Seq<char>| r != "us-east-1"@ && !sv.contains(r);
    let ghost names = str_views(all_regions());
    let mut regions_to_block: Vec<String> = Vec::new();
    let mut i: usize = 0;
    while i < all.len()
        invariant
            0 <= i <= all@.len(),
            all@ == all_regions(),
            names == str_views(all_regions()),
            sv == string_views(sel@),
            keep == (|r: Seq<char>| r != "us-east-1"@ && !sv.contains(r)),
            string_views(regions_to_block@) == names.take(i as int).filter(keep),
        decreases all@.len() - i,
    {
        proof {
            lemma_filter_take(names, keep, i as int);
        }
        let reg = all[i];
        assert(names[i as int] == reg@);
        if !str_eq(reg, "us-east-1") && !contains_string(sel, reg) {
            let ghost before = string_views(regions_to_block@);
            regions_to_block.push(String::from_str(reg));
            assert(string_views(regions_to_block@) =~= before.push(reg@));
        }
        i += 1;
    }
    assert(names.take(all@.len() as int) =~= names);
    let map = get_aws_to_sdr_map();
    let mut allowed_pops: Vec<String> = Vec::new();
    let mut j: usize = 0;
    while j < sel.len()
        invariant
            0 <= j <= sel@.len(),
            sv == string_views(sel@),
            map@.map_values(|e: (&'static str, Vec<&'static str>)| sdr_entry_view(e)) == aws_to_sdr_table(),
            string_views(allowed_pops@) == allowed_pops_of(sv.take(j as int)),
        decreases sel@.len() - j,
    {
        assert(sv.take(j + 1).drop_last() =~= sv.take(j as int));
        assert(sv.take(j + 1).last() == sel@[j as int]@);
        if let Some(pops) = sdr_pops_for(&map, sel[j].as_str()) {
            let ghost base = string_views(allowed_pops@);
            let mut k: usize = 0;
            while k < pops.len()
                invariant
                    0 <= k <= pops@.len(),
                    string_views(allowed_pops@) == base + str_views(pops@).take(k as int),
                decreases pops@.len() - k,
            {
                let ghost before = string_views(allowed_pops@);
                allowed_pops.push(String::from_str(pops[k]));
                assert(string_views(allowed_pops@) =~= before.push(pops@[k as int]@));
                assert(str_views(pops@).take(k + 1) =~= str_views(pops@).take(k as int).push(
                    pops@[k as int]@,
                ));
                k += 1;
                assert(string_views(allowed_pops@) =~= base + str_views(pops@).take(k as int));
            }
            assert(str_views(pops@).take(pops@.len() as int) =~= str_views(pops@));
        } else {
            assert(allowed_pops_of(sv.take(j + 1)) =~= allowed_pops_of(sv.take(j as int)));
        }
        j += 1;
    }
    assert(sv.take(sel@.len() as int) =~= sv);
    FirewallPlan::Block { regions_to_block, allowed_pops }
}

/// A Steam relay site as the Steam network configuration lists it: its code
/// and the IPv4 addresses of its relays, where it lists them.
#[derive(Debug, Clone, PartialEq, Eq)]
pub struct SdrPop {
    pub code: String,
    pub relays: Option<Vec<String>>,
}

/// Position of the last `.` in `s`.
pub open spec fn last_dot(s: Seq<char>) -> Option<int>
    decreases s.len(),
{
    if s.len() == 0 {
        None
    } else if s.last() == '.' {
        Some(s.len() - 1)
    } else {
        last_dot(s.drop_last())
    }
}

/// The /24 subnet of an IPv4 address: what comes before its last dot,
/// followed by `.0/24`; none for a text without a dot.
pub open spec fn subnet_of(ip: Seq<char>) -> Option<Seq<char>> {
    match last_dot(ip) {
        Some(p) => Some(ip.take(p) + ".0/24"@),
        None => None,
    }
}

/// The subnets of a list of relay addresses, in order.
pub open spec fn relay_subnets(ips: Seq<Seq<char>>) -> Seq<Seq<char>>
    decreases ips.len(),
{
    if ips.len() == 0 {
        Seq::empty()
    } else {
        relay_subnets(ips.drop_last()) + match subnet_of(ips.last()) {
            Some(n) => seq![n],
            None => Seq::empty(),
        }
    }
}

/// The subnets of the relays of every site that is not allowed.
pub open spec fn blocked_subnets(pops: Seq<SdrPop>, allowed: Seq<Seq<char>>) -> Seq<Seq<char>>
    decreases pops.len(),
{
    if pops.len() == 0 {
        Seq::empty()
    } else {
        let p = pops.last();
        blocked_subnets(pops.drop_last(), allowed) + if allowed.contains(p.code@) {
            Seq::empty()
        } else {
            match p.relays {
                Some(rs) => relay_subnets(string_views(rs@)),
                None => Seq::empty(),
            }
        }
    }
}

fn find_last_dot(v: &Vec<char>) -> (r: Option<usize>)
    ensures
        match r {
            Some(p) => last_dot(v@) == Some(p as int) && p < v@.len(),
            None => last_dot(v@) is None,
        },
{
    let mut i = v.len();
    assert(v@.take(i as int) =~= v@);
    while i > 0
        invariant
            0 <= i <= v@.len(),
            last_dot(v@) == last_dot(v@.take(i as int)),
        decreases i,
    {
        assert(v@.take(i as int).drop_last() =~= v@.take(i - 1));
        if v[i - 1] == '.' {
            return Some(i - 1);
        }
        i -= 1;
    }
    None
}

/// The /24 subnet of a relay address.
pub fn subnet_for(ip: &str) -> (r: Option<String>)
    ensures
        match r {
            Some(n) => subnet_of(ip@) == Some(n@),
            None => subnet_of(ip@) is None,
        },
{
    let v = chars_of(ip);
    assert(v@.take(v@.len() as int) =~= v@);
    match find_last_dot(&v) {
        Some(p) => {
            let mut t = subrange_chars(&v, 0, p);
            push_str(&mut t, ".0/24");
            assert(v@.subrange(0, p as int) =~= v@.take(p as int));
            Some(string_from_chars(&t))
        },
        None => None,
    }
}

/// The subnets of the Steam relays that a lock blocks: those of every site
/// outside `allowed_pops`, sorted, each once.
pub fn sdr_subnets(pops: &[SdrPop], allowed_pops: &[String]) -> (r: Vec<String>)
    ensures
        strictly_sorted(string_views(r@)),
        string_views(r@).to_set() == blocked_subnets(pops@, string_views(allowed_pops@)).to_set(),
{
    let ghost allowed = string_views(allowed_pops@);
    let mut out: Vec<String> = Vec::new();
    let mut i: usize = 0;
    while i < pops.len()
        invariant
            0 <= i <= pops@.len(),
            allowed == string_views(allowed_pops@),
            string_views(out@) == blocked_subnets(pops@.take(i as int), allowed),
        decreases pops@.len() - i,
    {
        let p = &pops[i];
        assert(pops@.take(i + 1).drop_last() =~= pops@.take(i as int));
        assert(pops@.take(i + 1).last() == *p);
        let ghost base = string_views(out@);
        if !contains_string(allowed_pops, p.code.as_str()) {
            if let Some(relays) = &p.relays {
                let ghost ips = string_views(relays@);
                let mut k: usize = 0;
                while k < relays.len()
                    invariant
                        0 <= k <= relays@.len(),
                        ips == string_views(relays@),
                        string_views(out@) == base + relay_subnets(ips.take(k as int)),
                    decreases relays@.len() - k,
                {
                    assert(ips.take(k + 1).drop_last() =~= ips.take(k as int));
                    assert(ips.take(k + 1).last() == relays@[k as int]@);
                    let ghost before = string_views(out@);
                    match subnet_for(relays[k].as_str()) {
                        Some(n) => {
                            out.push(n);
                            assert(string_views(out@) =~= before.push(n@));
                            assert(before.push(n@) =~= base + relay_subnets(ips.take(k + 1)));
                        },
                        None => {
                            assert(relay_subnets(ips.take(k + 1)) =~= relay_subnets(ips.take(k as int)));
                        },
                    }
                    k += 1;
                }
                assert(ips.take(relays@.len() as int) =~= ips);
            } else {
                assert(string_views(out@) =~= base + Seq::<Seq<char>>::empty());
            }
        } else {
            assert(string_views(out@) =~= base + Seq::<Seq<char>>::empty());
        }
        i += 1;
    }
    assert(pops@.take(pops@.len() as int) =~= pops@);
    sort_dedup_strings(out)
}

/// An address range that AWS publishes: its prefix and its region.
#[derive(Debug, Clone, PartialEq, Eq)]
pub struct AwsPrefix {
    pub prefix: String,
    pub region: String,
}

/// The prefixes of the ranges whose region is one of `regions`, in order.
pub open spec fn prefixes_in(ps: Seq<AwsPrefix>, regions: Seq<Seq<char>>) -> Seq<Seq<char>>
    decreases ps.len(),
{
    if ps.len() == 0 {
        Seq::empty()
    } else {
        prefixes_in(ps.drop_last(), regions) + if regions.contains(ps.last().region@) {
            seq![ps.last().prefix@]
        } else {
            Seq::empty()
        }
    }
}

/// The address prefixes that a lock blocks among the ranges AWS publishes.
pub fn prefixes_to_block(ps: &[AwsPrefix], regions: &[String]) -> (r: Vec<String>)
    ensures
        string_views(r@) == prefixes_in(ps@, string_views(regions@)),
{
    let ghost rs = string_views(regions@);
    let mut out: Vec<String> = Vec::new();
    let mut i: usize = 0;
    while i < ps.len()
        invariant
            0 <= i <= ps@.len(),
            rs == string_views(regions@),
            string_views(out@) == prefixes_in(ps@.take(i as int), rs),
        decreases ps@.len() - i,
    {
        assert(ps@.take(i + 1).drop_last() =~= ps@.take(i as int));
        assert(ps@.take(i + 1).last() == ps@[i as int]);
        let ghost before = string_views(out@);
        if contains_string(regions, ps[i].region.as_str()) {
            out.push(ps[i].prefix.clone());
            assert(string_views(out@) =~= before + seq![ps@[i as int].prefix@]);
        } else {
            assert(string_views(out@) =~= before + Seq::<Seq<char>>::empty());
        }
        i += 1;
    }
    assert(ps@.take(ps@.len() as int) =~= ps@);
    out
}

/// The IPv4 ranges to block: the AWS prefixes and the relay subnets
/// together, sorted, each once.
pub fn merge_blocked_v4(aws: Vec<String>, relays: Vec<String>) -> (r: Vec<String>)
    ensures
        strictly_sorted(string_views(r@)),
        string_views(r@).to_set() == (string_views(aws@) + string_views(relays@)).to_set(),
{
    let mut all = aws;
    let ghost a = string_views(all@);
    let mut i: usize = 0;
    while i < relays.len()
        invariant
            0 <= i <= relays@.len(),
            string_views(all@) == a + string_views(relays@).take(i as int),
        decreases relays@.len() - i,
    {
        let ghost before = string_views(all@);
        all.push(relays[i].clone());
        assert(string_views(all@) =~= before.push(relays@[i as int]@));
        assert(string_views(relays@).take(i + 1) =~= string_views(relays@).take(i as int).push(
            relays@[i as int]@,
        ));
        i += 1;
    }
    assert(string_views(relays@).take(relays@.len() as int) =~= string_views(relays@));
    sort_dedup_strings(all)
}

/// The start of every script: it removes any region lock that is in place,
/// as hosts-file entries or as iptables rules.
pub const SCRIPT_PRELUDE: &'static str = "#!/bin/bash\nsed -i '/# --- DBD REGION CHANGER START ---/,/# --- DBD REGION CHANGER END ---/d' /etc/hosts\niptables -D OUTPUT -m set --match-set dbdqueue_block dst -j REJECT 2>/dev/null\nip6tables -D OUTPUT -m set --match-set dbdqueue_block_v6 dst -j REJECT 2>/dev/null\niptables -D OUTPUT -p udp -m set --match-set dbdqueue_block dst -j REJECT 2>/dev/null\niptables -D OUTPUT -p icmp -m set --match-set dbdqueue_block dst -j REJECT 2>/dev/null\nip6tables -D OUTPUT -p udp -m set --match-set dbdqueue_block_v6 dst -j REJECT 2>/dev/null\nip6tables -D OUTPUT -p icmpv6 -m set --match-set dbdqueue_block_v6 dst -j REJECT 2>/dev/null\n";

/// The end of the script that clears the rules.
pub const SCRIPT_CLEAR: &'static str = "ipset destroy dbdqueue_block 2>/dev/null\nipset destroy dbdqueue_block_v6 2>/dev/null\nif command -v nft &>/dev/null; then\n    nft delete table inet dbdqueue 2>/dev/null\nfi\n";

/// The nftables table up to the IPv4 set's elements.
pub const NFT_HEAD: &'static str = "if command -v nft &>/dev/null; then\n    nft delete table inet dbdqueue 2>/dev/null\n    cat << 'EOF' > /tmp/dbdqueue_nft.conf\ntable inet dbdqueue {\n    set blocked_ips {\n        type ipv4_addr\n        flags interval\n        auto-merge\n";

/// The nftables table between the two sets' elements.
pub const NFT_V6_HEAD: &'static str = "    }\n    set blocked_ips_v6 {\n        type ipv6_addr\n        flags interval\n        auto-merge\n";

/// The rest of the nftables table, and the start of the ipset branch.
pub const NFT_TAIL: &'static str = "    }\n    chain output {\n        type filter hook output priority filter - 10; policy accept;\n        ip daddr @blocked_ips reject\n        ip6 daddr @blocked_ips_v6 reject\n    }\n}\nEOF\n    nft -f /tmp/dbdqueue_nft.conf\n    rm -f /tmp/dbdqueue_nft.conf\nelse\n    ipset restore <<'EOF'\ncreate dbdqueue_block hash:net -exist\nflush dbdqueue_block\n";

/// Between the IPv4 and IPv6 ipset entries.
pub const IPSET_V6_HEAD: &'static str = "create dbdqueue_block_v6 hash:net family inet6 -exist\nflush dbdqueue_block_v6\n";

/// The end of the ipset branch: the rules that reject traffic to the sets.
pub const IPSET_TAIL: &'static str = "EOF\n    iptables -I OUTPUT -m set --match-set dbdqueue_block dst -j REJECT\n    ip6tables -I OUTPUT -m set --match-set dbdqueue_block_v6 dst -j REJECT\nfi\n";

/// The separator of an nftables element list.
pub const ELEMENT_SEP: &'static str = ",\n            ";

/// The strings of `v` with `sep` between each two.
pub open spec fn joined(v: Seq<Seq<char>>, sep: Seq<char>) -> Seq<char>
    decreases v.len(),
{
    if v.len() == 0 {
        Seq::empty()
    } else if v.len() == 1 {
        v[0]
    } else {
        joined(v.drop_last(), sep) + sep + v.last()
    }
}

/// The elements of an nftables set, none when the list is empty.
pub open spec fn elements_block(v: Seq<Seq<char>>) -> Seq<char> {
    let j = joined(v, ELEMENT_SEP@);
    if j.len() == 0 {
        Seq::empty()
    } else {
        "        elements = {\n            "@ + j + "\n        }\n"@
    }
}

/// One `add` line of an ipset restore file per range.
pub open spec fn add_lines(set: Seq<char>, v: Seq<Seq<char>>) -> Seq<char>
    decreases v.len(),
{
    if v.len() == 0 {
        Seq::empty()
    } else {
        add_lines(set, v.drop_last()) + "add "@ + set + " "@ + v.last() + "\n"@
    }
}

/// The script that blocks the IPv4 ranges `v4` and the IPv6 ranges `v6`.
pub open spec fn block_script_text(v4: Seq<Seq<char>>, v6: Seq<Seq<char>>) -> Seq<char> {
    SCRIPT_PRELUDE@ + NFT_HEAD@ + elements_block(v4) + NFT_V6_HEAD@ + elements_block(v6) + NFT_TAIL@
        + add_lines("dbdqueue_block"@, v4) + IPSET_V6_HEAD@ + add_lines("dbdqueue_block_v6"@, v6)
        + IPSET_TAIL@
}

/// The script that removes every rule.
pub open spec fn clear_script_text() -> Seq<char> {
    SCRIPT_PRELUDE@ + SCRIPT_CLEAR@
}

fn push_joined(out: &mut Vec<char>, v: &[String], sep: &str)
    ensures
        final(out)@ == old(out)@ + joined(string_views(v@), sep@),
{
    let ghost start = out@;
    let ghost sv = string_views(v@);
    let mut i: usize = 0;
    while i < v.len()
        invariant
            0 <= i <= v@.len(),
            sv == string_views(v@),
            out@ == start + joined(sv.take(i as int), sep@),
        decreases v@.len() - i,
    {
        assert(sv.take(i + 1).drop_last() =~= sv.take(i as int));
        assert(sv.take(i + 1).last() == v@[i as int]@);
        if i > 0 {
            push_str(out, sep);
        }
        push_str(out, v[i].as_str());
        proof {
            if i == 0 {
                assert(sv.take(1) =~= seq![v@[0]@]);
                assert(joined(sv.take(0), sep@) =~= Seq::<char>::empty());
            }
        }
        i += 1;
        assert(out@ =~= start + joined(sv.take(i as int), sep@));
    }
    assert(sv.take(v@.len() as int) =~= sv);
}

fn push_elements(out: &mut Vec<char>, v: &[String])
    ensures
        final(out)@ == old(out)@ + elements_block(string_views(v@)),
{
    let mut j: Vec<char> = Vec::new();
    push_joined(&mut j, v, ELEMENT_SEP);
    assert(j@ =~= joined(string_views(v@), ELEMENT_SEP@));
    let ghost start = out@;
    if j.len() > 0 {
        push_str(out, "        elements = {\n            ");
        let mut k: usize = 0;
        while k < j.len()
            invariant
                0 <= k <= j@.len(),
                out@ == start + "        elements = {\n            "@ + j@.take(k as int),
            decreases j@.len() - k,
        {
            out.push(j[k]);
            k += 1;
            assert(out@ =~= start + "        elements = {\n            "@ + j@.take(k as int));
        }
        assert(j@.take(j@.len() as int) =~= j@);
        push_str(out, "\n        }\n");
    } else {
        assert(out@ =~= start + elements_block(string_views(v@)));
    }
}

fn push_adds(out: &mut Vec<char>, set: &str, v: &[String])
    ensures
        final(out)@ == old(out)@ + add_lines(set@, string_views(v@)),
{
    let ghost start = out@;
    let ghost sv = string_views(v@);
    let mut i: usize = 0;
    while i < v.len()
        invariant
            0 <= i <= v@.len(),
            sv == string_views(v@),
            out@ == start + add_lines(set@, sv.take(i as int)),
        decreases v@.len() - i,
    {
        assert(sv.take(i + 1).drop_last() =~= sv.take(i as int));
        assert(sv.take(i + 1).last() == v@[i as int]@);
        push_str(out, "add ");
        push_str(out, set);
        push_str(out, " ");
        push_str(out, v[i].as_str());
        push_str(out, "\n");
        i += 1;
        assert(out@ =~= start + add_lines(set@, sv.take(i as int)));
    }
    assert(sv.take(v@.len() as int) =~= sv);
}

/// The script that blocks the IPv4 ranges `v4` and the IPv6 ranges `v6`:
/// with nftables where it is installed, else with ipset and iptables.
pub fn block_script(v4: &[String], v6: &[String]) -> (r: String)
    ensures
        r@ == block_script_text(string_views(v4@), string_views(v6@)),
{
    let mut out: Vec<char> = Vec::new();
    push_str(&mut out, SCRIPT_PRELUDE);
    push_str(&mut out, NFT_HEAD);
    push_elements(&mut out, v4);
    push_str(&mut out, NFT_V6_HEAD);
    push_elements(&mut out, v6);
    push_str(&mut out, NFT_TAIL);
    push_adds(&mut out, "dbdqueue_block", v4);
    push_str(&mut out, IPSET_V6_HEAD);
    push_adds(&mut out, "dbdqueue_block_v6", v6);
    push_str(&mut out, IPSET_TAIL);
    assert(out@ =~= block_script_text(string_views(v4@), string_views(v6@)));
    string_from_chars(&out)
}

/// The script that removes every rule.
pub fn clear_script() -> (r: String)
    ensures
        r@ == clear_script_text(),
{
    let mut out: Vec<char> = Vec::new();
    push_str(&mut out, SCRIPT_PRELUDE);
    push_str(&mut out, SCRIPT_CLEAR);
    assert(out@ =~= clear_script_text());
    string_from_chars(&out)
}

/// The script that applies a lock: the IPv4 and IPv6 ranges of the regions
/// to block, with the subnets of the relays outside the allowed sites merged
/// into the IPv4 ranges, sorted and without repeats.
pub fn lock_script(
    regions_to_block: &[String],
    allowed_pops: &[String],
    v4_ranges: &[AwsPrefix],
    v6_ranges: &[AwsPrefix],
    pops: &[SdrPop],
) -> (r: String)
    ensures
        exists|v4: Seq<Seq<char>>|
            strictly_sorted(v4) && v4.to_set() == prefixes_in(v4_ranges@, string_views(regions_to_block@)).to_set()
                + blocked_subnets(pops@, string_views(allowed_pops@)).to_set() && r@ == block_script_text(
                v4,
                prefixes_in(v6_ranges@, string_views(regions_to_block@)),
            ),
{
    let aws4 = prefixes_to_block(v4_ranges, regions_to_block);
    let v6 = prefixes_to_block(v6_ranges, regions_to_block);
    let subnets = sdr_subnets(pops, allowed_pops);
    let ghost a = string_views(aws4@);
    let ghost b = string_views(subnets@);
    let v4 = merge_blocked_v4(aws4, subnets);
    proof {
        seq_to_set_distributes_over_add(a, b);
    }
    let r = block_script(&v4, &v6);
    assert(string_views(v4@).to_set() == prefixes_in(v4_ranges@, string_views(regions_to_block@)).to_set()
        + blocked_subnets(pops@, string_views(allowed_pops@)).to_set());
    r
}

/// The text of an exit code as `{:?}` shows an `Option<i32>`, after the
/// words "exit code".
pub open spec fn exit_code_text(code: Option<i32>) -> Seq<char> {
    "exit code "@ + match code {
        None => "None"@,
        Some(c) => "Some("@ + (if c < 0 {
            seq!['-'] + decimal((-c) as nat)
        } else {
            decimal(c as nat)
        }) + ")"@,
    }
}

/// What running the lock script came to, from whether it succeeded and its
/// exit code: done; the elevation refused or unavailable (pkexec's exit codes
/// 126 and 127); else an error that names the exit code.
pub fn script_outcome(success: bool, code: Option<i32>) -> (r: UpdateHostsResult)
    ensures
        success ==> r is Updated,
        !success && (code == Some(126i32) || code == Some(127i32)) ==> r is ElevationFailed,
        !success && code != Some(126i32) && code != Some(127i32) ==> (r matches UpdateHostsResult::Error(m)
            && m@ == exit_code_text(code)),
{
    if success {
        return UpdateHostsResult::Updated;
    }
    if let Some(c) = code {
        if c == 126 || c == 127 {
            return UpdateHostsResult::ElevationFailed;
        }
    }
    let mut out: Vec<char> = Vec::new();
    push_str(&mut out, "exit code ");
    match code {
        None => push_str(&mut out, "None"),
        Some(c) => {
            push_str(&mut out, "Some(");
            if c < 0 {
                out.push('-');
                let m: i64 = -(c as i64);
                push_decimal(&mut out, m as u64);
            } else {
                push_decimal(&mut out, c as u64);
            }
            push_str(&mut out, ")");
        },
    }
    UpdateHostsResult::Error(string_from_chars(&out))
}

} // verus!
