//! Subnet scanning: which addresses and ports to probe.

use vstd::prelude::*;
use vstd::string::StrSliceExecFns;
use crate::common::text::concat;
use crate::common::decimal::{u64_to_string, decimal_text};

verus! {

/// The address to ask `address` on `port` for its device info:
/// `http://address:port/api/info`.
pub fn info_url(address: &str, port: u16) -> (r: String)
    ensures
        r@ == "http://"@ + address@ + ":"@ + decimal_text(port as nat) + "/api/info"@,
{
    let a = concat("http://", address);
    let b = concat(a.as_str(), ":");
    let p = u64_to_string(port as u64);
    let c = concat(b.as_str(), p.as_str());
    concat(c.as_str(), "/api/info")
}

/// How to scan.
#[derive(Debug, Clone)]
pub struct ScanConfig {
    pub timeout_secs: u64,
    pub max_concurrent: usize,
    /// Address ranges such as `192.168.1.0/24`; the local network when empty.
    pub custom_ranges: Vec<String>,
    pub scan_ports: Vec<u16>,
}

impl Default for ScanConfig {
    fn default() -> (r: ScanConfig)
        ensures
            r.timeout_secs == 2,
            r.max_concurrent == 50,
            r.custom_ranges@.len() == 0,
            r.scan_ports@ == seq![8080u16, 53317, 3000, 8000, 9000],
    {
        let scan_ports: Vec<u16> = vec![8080u16, 53317, 3000, 8000, 9000];
        assert(scan_ports@ =~= seq![8080u16, 53317, 3000, 8000, 9000]);
        ScanConfig { timeout_secs: 2, max_concurrent: 50, custom_ranges: Vec::new(), scan_ports }
    }
}

/// What a device answers on its info endpoint.
#[derive(Debug, Clone)]
pub struct DeviceInfoResponse {
    pub name: String,
    pub device_type: String,
    pub version: String,
    pub id: String,
}

/// What a scan reports.
#[derive(Debug, Clone)]
pub enum ScanEvent {
    DeviceFound { name: String, address: String, port: u16, info: DeviceInfoResponse },
    Progress { current: usize, total: usize },
    Complete { found_count: usize },
    Error(String),
}

/// The first position of `c` in `s`.
pub open spec fn first_index_of(s: Seq<char>, c: char) -> Option<int> {
    if exists|i: int| 0 <= i < s.len() && s[i] == c {
        Some(choose|i: int| 0 <= i < s.len() && s[i] == c && forall|j: int| 0 <= j < i ==> s[j] != c)
    } else {
        None
    }
}

/// The last position of `c` in `s`.
pub open spec fn last_index_of(s: Seq<char>, c: char) -> Option<int> {
    if exists|i: int| 0 <= i < s.len() && s[i] == c {
        Some(choose|i: int| 0 <= i < s.len() && s[i] == c && forall|j: int| i < j < s.len() ==> s[j] != c)
    } else {
        None
    }
}

/// The hosts 1 to 253 after `prefix`.
pub open spec fn hosts_after(prefix: Seq<char>) -> Seq<Seq<char>> {
    Seq::new(253, |i: int| prefix + decimal_text((i + 1) as nat))
}

/// The addresses of a range: for `a.b.c.d/n`, the hosts `a.b.c.1` to
/// `a.b.c.253`; anything else stands for itself.
pub open spec fn network_range(s: Seq<char>) -> Seq<Seq<char>> {
    match first_index_of(s, '/') {
        Some(p) => match last_index_of(s.take(p), '.') {
            Some(d) => hosts_after(s.take(d + 1)),
            None => seq![s],
        },
        None => seq![s],
    }
}

/// The addresses to probe around the local address: its hosts 1 to 253,
/// nothing for an address without a dot, and a few common gateways when
/// the local address is unknown.
pub open spec fn networks_for(ip: Option<Seq<char>>) -> Seq<Seq<char>> {
    match ip {
        Some(s) => match last_index_of(s, '.') {
            Some(d) => hosts_after(s.take(d + 1)),
            None => Seq::empty(),
        },
        None => seq!["192.168.1.1"@, "192.168.0.1"@, "10.0.0.1"@, "172.16.0.1"@],
    }
}

/// One address paired with each port.
pub open spec fn port_pairs(ip: Seq<char>, ports: Seq<u16>) -> Seq<(Seq<char>, u16)> {
    ports.map_values(|p: u16| (ip, p))
}

/// Every address paired with every port, address by address.
pub open spec fn targets_of(ips: Seq<Seq<char>>, ports: Seq<u16>) -> Seq<(Seq<char>, u16)>
    decreases ips.len(),
{
    if ips.len() == 0 {
        Seq::empty()
    } else {
        targets_of(ips.drop_last(), ports) + port_pairs(ips.last(), ports)
    }
}

/// The characters of each address, with its port.
pub open spec fn pairs_view(v: Seq<(String, u16)>) -> Seq<(Seq<char>, u16)> {
    v.map_values(|t: (String, u16)| (t.0@, t.1))
}

/// The addresses of the ranges, one range after another.
pub open spec fn ranges_hosts(ranges: Seq<Seq<char>>) -> Seq<Seq<char>>
    decreases ranges.len(),
{
    if ranges.len() == 0 {
        Seq::empty()
    } else {
        ranges_hosts(ranges.drop_last()) + network_range(ranges.last())
    }
}

/// The characters of each string.
pub open spec fn texts(v: Seq<String>) -> Seq<Seq<char>> {
    v.map_values(|s: String| s@)
}

/// The first position of `c` in `s`, from the front.
fn find_char(s: &str, c: char) -> (r: Option<usize>)
    ensures
        match r {
            Some(i) => i < s@.len() && first_index_of(s@, c) == Some(i as int),
            None => first_index_of(s@, c) is None,
        },
{
    let n = s.unicode_len();
    let mut i: usize = 0;
    while i < n
        invariant
            n == s@.len(),
            i <= n,
            forall|j: int| 0 <= j < i ==> s@[j] != c,
        decreases n - i,
    {
        if s.get_char(i) == c {
            let ghost w = choose|k: int| 0 <= k < s@.len() && s@[k] == c && forall|j: int| 0 <= j < k ==> s@[j] != c;
            assert(0 <= i < s@.len() && s@[i as int] == c && forall|j: int| 0 <= j < i ==> s@[j] != c);
            assert(w == i) by {
                if w < i {
                    assert(s@[w] != c);
                } else if w > i {
                    assert(s@[i as int] != c);
                }
            }
            return Some(i);
        }
        i = i + 1;
    }
    None
}

/// The last position of `c` among the first `end` characters of `s`.
fn rfind_char(s: &str, end: usize, c: char) -> (r: Option<usize>)
    requires
        end <= s@.len(),
    ensures
        match r {
            Some(i) => i < end && last_index_of(s@.take(end as int), c) == Some(i as int),
            None => last_index_of(s@.take(end as int), c) is None,
        },
{
    let ghost t = s@.take(end as int);
    let mut i: usize = end;
    while i > 0
        invariant
            t == s@.take(end as int),
            end <= s@.len(),
            i <= end,
            forall|j: int| i <= j < end ==> t[j] != c,
        decreases i,
    {
        if s.get_char(i - 1) == c {
            let k: usize = i - 1;
            assert(t[k as int] == c);
            let ghost w = choose|x: int| 0 <= x < t.len() && t[x] == c && forall|j: int| x < j < t.len() ==> t[j] != c;
            assert(0 <= k < t.len() && t[k as int] == c && forall|j: int| k < j < t.len() ==> t[j] != c);
            assert(w == k) by {
                if w < k {
                    assert(t[k as int] != c);
                } else if w > k {
                    assert(t[w] != c);
                }
            }
            return Some(k);
        }
        i = i - 1;
    }
    None
}

/// The hosts 1 to 253 after `prefix`, as strings.
fn hosts_after_exec(prefix: &str) -> (r: Vec<String>)
    ensures
        texts(r@) == hosts_after(prefix@),
{
    let mut out: Vec<String> = Vec::new();
    let mut i: u64 = 1;
    while i < 254
        invariant
            1 <= i <= 254,
            out@.len() == i - 1,
            forall|j: int| 0 <= j < out@.len() ==> (#[trigger] out@[j])@ == prefix@ + decimal_text((j + 1) as nat),
        decreases 254 - i,
    {
        let digits = u64_to_string(i);
        out.push(concat(prefix, digits.as_str()));
        i = i + 1;
    }
    assert(texts(out@) =~= hosts_after(prefix@));
    out
}

/// The addresses of a range such as `192.168.1.0/24`: the hosts `.1` to
/// `.253` of its network; any other text stands for itself.
pub fn generate_network_range(network: &str) -> (r: Vec<String>)
    ensures
        texts(r@) == network_range(network@),
{
    match find_char(network, '/') {
        Some(p) => match rfind_char(network, p, '.') {
            Some(d) => {
                let prefix = network.substring_char(0, d + 1);
                assert(network@.subrange(0, d + 1) =~= network@.take(d + 1));
                hosts_after_exec(prefix)
            },
            None => {
                let v = vec![network.to_owned()];
                assert(texts(v@) =~= seq![network@]);
                v
            },
        },
        None => {
            let v = vec![network.to_owned()];
            assert(texts(v@) =~= seq![network@]);
            v
        },
    }
}

/// Calls `local_ip_address::local_ip` and writes the address as text.
/// Nothing is claimed of it: it depends on the machine's interfaces.
#[verifier::external_body]
fn local_ip_text() -> Option<String> {
    match local_ip_address::local_ip() {
        Ok(ip) => Some(ip.to_string()),
        Err(_) => None,
    }
}

/// The characters of an optional string.
pub open spec fn opt_text(o: Option<String>) -> Option<Seq<char>> {
    match o {
        Some(s) => Some(s@),
        None => None,
    }
}

/// A few common gateway addresses.
fn fallback_networks() -> (r: Vec<String>)
    ensures
        texts(r@) == seq!["192.168.1.1"@, "192.168.0.1"@, "10.0.0.1"@, "172.16.0.1"@],
{
    let v = vec![
        "192.168.1.1".to_owned(),
        "192.168.0.1".to_owned(),
        "10.0.0.1".to_owned(),
        "172.16.0.1".to_owned(),
    ];
    assert(texts(v@) =~= seq!["192.168.1.1"@, "192.168.0.1"@, "10.0.0.1"@, "172.16.0.1"@]);
    v
}

/// The addresses to probe around a local address (see `networks_for`).
pub fn networks_around(ip: Option<String>) -> (r: Vec<String>)
    ensures
        texts(r@) == networks_for(opt_text(ip)),
{
    match ip {
        Some(s) => {
            let n = s.as_str().unicode_len();
            match rfind_char(s.as_str(), n, '.') {
                Some(d) => {
                    assert(s@.take(n as int) =~= s@);
                    let prefix = s.as_str().substring_char(0, d + 1);
                    assert(s@.subrange(0, d + 1) =~= s@.take(d + 1));
                    hosts_after_exec(prefix)
                },
                None => {
                    assert(s@.take(n as int) =~= s@);
                    let v: Vec<String> = Vec::new();
                    assert(texts(v@) =~= Seq::<Seq<char>>::empty());
                    v
                },
            }
        },
        None => fallback_networks(),
    }
}

/// The addresses around this machine's local address.
pub fn get_local_networks() -> (r: Result<Vec<String>, crate::common::error::Error>)
    ensures
        r matches Ok(v) && exists|ip: Option<Seq<char>>| texts(v@) == networks_for(ip),
{
    let ip = local_ip_text();
    let ghost g = opt_text(ip);
    let v = networks_around(ip);
    assert(texts(v@) == networks_for(g));
    Ok(v)
}

proof fn lemma_targets_append(a: Seq<Seq<char>>, b: Seq<Seq<char>>, ports: Seq<u16>)
    ensures
        targets_of(a + b, ports) == targets_of(a, ports) + targets_of(b, ports),
    decreases b.len(),
{
    if b.len() == 0 {
        assert(a + b =~= a);
        assert(targets_of(a, ports) + targets_of(b, ports) =~= targets_of(a, ports));
    } else {
        assert((a + b).drop_last() =~= a + b.drop_last());
        lemma_targets_append(a, b.drop_last(), ports);
        assert((a + b).last() == b.last());
        assert(targets_of(a + b, ports) =~= targets_of(a, ports) + targets_of(b, ports));
    }
}

/// Appends every address of `ips` paired with every port.
fn push_targets(out: &mut Vec<(String, u16)>, ips: &Vec<String>, ports: &Vec<u16>)
    ensures
        pairs_view(final(out)@) == pairs_view(old(out)@) + targets_of(texts(ips@), ports@),
{
    let ghost start = pairs_view(old(out)@);
    let mut i: usize = 0;
    while i < ips.len()
        invariant
            i <= ips@.len(),
            pairs_view(out@) == start + targets_of(texts(ips@).take(i as int), ports@),
        decreases ips.len() - i,
    {
        let ghost before = pairs_view(out@);
        let ghost ip = ips@[i as int]@;
        let mut j: usize = 0;
        while j < ports.len()
            invariant
                i < ips@.len(),
                ip == ips@[i as int]@,
                j <= ports@.len(),
                pairs_view(out@) == before + port_pairs(ip, ports@.take(j as int)),
            decreases ports.len() - j,
        {
            let ghost b2 = pairs_view(out@);
            out.push((ips[i].clone(), ports[j]));
            assert(pairs_view(out@) =~= b2.push((ip, ports@[j as int])));
            j = j + 1;
            assert(port_pairs(ip, ports@.take(j as int)) =~= port_pairs(ip, ports@.take(j - 1)).push((ip, ports@[j - 1])));
            assert(pairs_view(out@) =~= before + port_pairs(ip, ports@.take(j as int)));
        }
        assert(ports@.take(ports@.len() as int) =~= ports@);
        let ghost ti = texts(ips@).take(i + 1);
        assert(ti.drop_last() =~= texts(ips@).take(i as int));
        assert(ti.last() == ip);
        i = i + 1;
        assert(pairs_view(out@) =~= start + targets_of(texts(ips@).take(i as int), ports@));
    }
    assert(texts(ips@).take(i as int) =~= texts(ips@));
}

/// The address and port pairs a scan probes: the given ranges' hosts, or
/// when there are none the local networks, each with every port.
pub fn scan_targets(config: &ScanConfig, local_networks: &Vec<String>) -> (r: Vec<(String, u16)>)
    ensures
        pairs_view(r@) == targets_of(
            if config.custom_ranges@.len() == 0 {
                texts(local_networks@)
            } else {
                ranges_hosts(texts(config.custom_ranges@))
            },
            config.scan_ports@,
        ),
{
    let mut out: Vec<(String, u16)> = Vec::new();
    assert(pairs_view(out@) =~= Seq::<(Seq<char>, u16)>::empty());
    if config.custom_ranges.len() == 0 {
        push_targets(&mut out, local_networks, &config.scan_ports);
        assert(pairs_view(out@) =~= targets_of(texts(local_networks@), config.scan_ports@));
    } else {
        let ghost rs = texts(config.custom_ranges@);
        let mut i: usize = 0;
        while i < config.custom_ranges.len()
            invariant
                rs == texts(config.custom_ranges@),
                i <= rs.len(),
                pairs_view(out@) == targets_of(ranges_hosts(rs.take(i as int)), config.scan_ports@),
            decreases config.custom_ranges.len() - i,
        {
            let ips = generate_network_range(config.custom_ranges[i].as_str());
            push_targets(&mut out, &ips, &config.scan_ports);
            proof {
                let t = rs.take(i + 1);
                assert(t.drop_last() =~= rs.take(i as int));
                assert(t.last() == config.custom_ranges@[i as int]@);
                lemma_targets_append(ranges_hosts(rs.take(i as int)), texts(ips@), config.scan_ports@);
            }
            i = i + 1;
        }
        assert(rs.take(i as int) =~= rs);
    }
    out
}

} // verus!
