//! Finding the daemons of the local network: which subnets to scan, which
//! addresses to probe, and how the answers are gathered into one table.
use crate::ipc::{FileTable, IPCResponse};
use crate::tcp::TCPResponse;
use crate::lex::seq_lt;
use crate::table::{strictly_sorted, StrMap};
use vstd::prelude::*;

verus! {

/// Why exploring the network gave up.
pub enum ExploreError {
    /// An interface's netmask is not a run of ones followed by zeros.
    InvalidNetmask,
    /// A prefix length above 32.
    InvalidPrefixLength,
}

/// The netmask of a prefix of `p` bits.
pub open spec fn prefix_mask(p: u8) -> u32 {
    if p == 0 {
        0
    } else {
        (0xffff_ffffu32 << ((32 - p) as u32)) as u32
    }
}

/// The number of addresses in a network with a prefix of `p` bits, `1 <= p <= 32`.
pub open spec fn block_size(p: u8) -> u32 {
    (1u32 << ((32 - p) as u32)) as u32
}

/// The host addresses of a network: all but the network and broadcast addresses.
pub open spec fn subnet_hosts(network_ip: u32, p: u8) -> Seq<u32> {
    let network = network_ip & prefix_mask(p);
    let count = if block_size(p) >= 2 { block_size(p) - 2 } else { 0 };
    Seq::new(count as nat, |i: int| (network | ((i + 1) as u32)) as u32)
}

/// Calls `ipnet::Ipv4Net::with_netmask(ip, netmask)` and, where it succeeds,
/// reads the network's `network()` address and `prefix_len()`. As the crate's
/// source shows, it succeeds exactly when the netmask is a prefix mask, takes
/// that prefix's length, and the network address keeps the bits that the mask keeps.
#[verifier::external_body]
fn ipv4_network(ip: u32, netmask: u32) -> (network: Option<(u32, u8)>)
    ensures
        network.is_some() == valid_netmask(netmask),
        network matches Some((addr, len)) ==> len <= 32 && netmask == prefix_mask(len) && addr
            == ip & netmask,
{
    match ipnet::Ipv4Net::with_netmask(ip.into(), netmask.into()) {
        Ok(net) => Some((net.network().into(), net.prefix_len())),
        Err(_) => None,
    }
}

/// The host addresses of the network of `network_ip` with a prefix of `prefix_length` bits,
/// in increasing order.
pub fn generate_subnet_ips(network_ip: u32, prefix_length: u8) -> (r: Result<Vec<u32>, ExploreError>)
    requires
        prefix_length != 0,
    ensures
        prefix_length > 32 ==> (r matches Err(ExploreError::InvalidPrefixLength)),
        prefix_length <= 32 ==> (r matches Ok(v) && v@ == subnet_hosts(network_ip, prefix_length)),
{
    if prefix_length > 32 {
        return Err(ExploreError::InvalidPrefixLength);
    }
    let mask: u32 = 0xffff_ffffu32 << (32 - prefix_length);
    let network = network_ip & mask;
    let total: u32 = 1u32 << (32 - prefix_length);
    let mut ips: Vec<u32> = Vec::new();
    let mut i: u32 = 1;
    let ghost hosts = subnet_hosts(network_ip, prefix_length);
    assert(total >= 1) by (bit_vector)
        requires
            total == 1u32 << (32 - prefix_length) as u32,
            1 <= prefix_length <= 32,
    ;
    while i < total - 1
        invariant
            1 <= i,
            total >= 1,
            total >= 2 ==> i <= total - 1,
            total == 1 ==> i == 1,
            total == block_size(prefix_length),
            network == network_ip & prefix_mask(prefix_length),
            hosts == subnet_hosts(network_ip, prefix_length),
            ips@.len() == i - 1,
            forall|j: int| 0 <= j < ips@.len() ==> ips@[j] == hosts[j],
        decreases total - i,
    {
        ips.push(network | i);
        i = i + 1;
    }
    assert(hosts.len() == (if total >= 2 { total - 2 } else { 0 }));
    assert(ips@.len() == hosts.len());
    assert(ips@ =~= hosts);
    Ok(ips)
}

proof fn lemma_host_bits(n: u32, h: u32, s: u32)
    requires
        s <= 31,
        1 <= h,
        h + 1 < (1u32 << s),
    ensures
        ((n & (0xffff_ffffu32 << s)) | h) & (0xffff_ffffu32 << s) == n & (0xffff_ffffu32 << s),
        ((n & (0xffff_ffffu32 << s)) | h) != n & (0xffff_ffffu32 << s),
        ((n & (0xffff_ffffu32 << s)) | h) != (n & (0xffff_ffffu32 << s)) | !(0xffff_ffffu32 << s),
{
    assert(s <= 31 && 1 <= h && h + 1 < (1u32 << s) ==> ((n & (0xffff_ffffu32 << s)) | h) & (
    0xffff_ffffu32 << s) == n & (0xffff_ffffu32 << s)) by (bit_vector);
    assert(s <= 31 && 1 <= h && h + 1 < (1u32 << s) ==> ((n & (0xffff_ffffu32 << s)) | h) != n & (
    0xffff_ffffu32 << s)) by (bit_vector);
    assert(s <= 31 && 1 <= h && h + 1 < (1u32 << s) ==> ((n & (0xffff_ffffu32 << s)) | h) != (n & (
    0xffff_ffffu32 << s)) | !(0xffff_ffffu32 << s)) by (bit_vector);
}

proof fn lemma_host_order(n: u32, h1: u32, h2: u32, s: u32)
    requires
        s <= 31,
        h1 < h2,
        h2 < (1u32 << s),
    ensures
        ((n & (0xffff_ffffu32 << s)) | h1) < ((n & (0xffff_ffffu32 << s)) | h2),
{
    assert(s <= 31 && h1 < h2 && h2 < (1u32 << s) ==> ((n & (0xffff_ffffu32 << s)) | h1) < ((n & (
    0xffff_ffffu32 << s)) | h2)) by (bit_vector);
}

/// The host addresses of a network lie in it, are neither its network address
/// nor its broadcast address, come in strictly increasing order, and number
/// two fewer than the network's addresses.
pub proof fn law_subnet_hosts(network_ip: u32, p: u8)
    requires
        1 <= p <= 32,
    ensures
        forall|i: int|
            0 <= i < subnet_hosts(network_ip, p).len() ==> {
                let a = #[trigger] subnet_hosts(network_ip, p)[i];
                &&& a & prefix_mask(p) == network_ip & prefix_mask(p)
                &&& a != network_ip & prefix_mask(p)
                &&& a != (network_ip & prefix_mask(p)) | !prefix_mask(p)
            },
        forall|i: int, j: int|
            0 <= i < j < subnet_hosts(network_ip, p).len() ==> #[trigger] subnet_hosts(
                network_ip,
                p,
            )[i] < #[trigger] subnet_hosts(network_ip, p)[j],
        p <= 30 ==> subnet_hosts(network_ip, p).len() == block_size(p) - 2,
{
    let sh = (32 - p) as u32;
    let hosts = subnet_hosts(network_ip, p);
    assert(prefix_mask(p) == 0xffff_ffffu32 << sh);
    assert(block_size(p) == 1u32 << sh);
    assert(p <= 30 ==> (1u32 << sh) >= 4) by (bit_vector)
        requires
            sh == (32 - p) as u32,
            1 <= p <= 32,
    ;
    assert forall|i: int| 0 <= i < hosts.len() implies {
        let a = #[trigger] hosts[i];
        &&& a & prefix_mask(p) == network_ip & prefix_mask(p)
        &&& a != network_ip & prefix_mask(p)
        &&& a != (network_ip & prefix_mask(p)) | !prefix_mask(p)
    } by {
        lemma_host_bits(network_ip, (i + 1) as u32, sh);
    }
    assert forall|i: int, j: int| 0 <= i < j < hosts.len() implies #[trigger] hosts[i]
        < #[trigger] hosts[j] by {
        lemma_host_order(network_ip, (i + 1) as u32, (j + 1) as u32, sh);
    }
}

/// The network addresses of the interfaces (address and netmask) whose prefix
/// is 24 bits long, in the order of the interfaces.
pub open spec fn lan_networks_of(interfaces: Seq<(u32, u32)>) -> Seq<u32>
    decreases interfaces.len(),
{
    if interfaces.len() == 0 {
        Seq::empty()
    } else {
        let rest = lan_networks_of(interfaces.drop_last());
        let (ip, mask) = interfaces.last();
        if mask == prefix_mask(24) {
            rest.push(ip & mask)
        } else {
            rest
        }
    }
}

/// Exactly the interfaces whose netmask is 255.255.255.0 contribute a
/// network, their address with the last byte cleared, in interface order; an
/// interface with any other valid prefix (a /32 tunnel address, a /16, a /25)
/// contributes nothing.
pub proof fn law_lan_networks_keep_24_bit_prefixes(
    interfaces: Seq<(u32, u32)>,
    ip: u32,
    mask: u32,
    p: u8,
)
    requires
        p <= 32,
        mask == prefix_mask(p),
    ensures
        p == 24 ==> lan_networks_of(interfaces.push((ip, mask))) == lan_networks_of(interfaces).push(
            ip & 0xffff_ff00u32,
        ),
        p != 24 ==> lan_networks_of(interfaces.push((ip, mask))) == lan_networks_of(interfaces),
        lan_networks_of(seq![(ip, mask)]) == (if p == 24 {
            seq![ip & 0xffff_ff00u32]
        } else {
            Seq::<u32>::empty()
        }),
{
    assert(prefix_mask(24) == 0xffff_ff00u32) by (bit_vector);
    assert(interfaces.push((ip, mask)).drop_last() =~= interfaces);
    assert(interfaces.push((ip, mask)).last() == (ip, mask));
    if p != 24 && mask == prefix_mask(24) {
        lemma_prefix_mask_injective(p, 24);
    }
    let one = seq![(ip, mask)];
    assert(one.drop_last() =~= Seq::<(u32, u32)>::empty());
    assert(lan_networks_of(Seq::<(u32, u32)>::empty()) =~= Seq::<u32>::empty());
    if p == 24 {
        assert(Seq::<u32>::empty().push(ip & mask) =~= seq![ip & 0xffff_ff00u32]);
    }
}

/// Whether a netmask is a run of ones followed by zeros.
pub open spec fn valid_netmask(mask: u32) -> bool {
    exists|p: u8| p <= 32 && mask == prefix_mask(p)
}

/// The networks that look like a home or office LAN (a 24-bit prefix) among the
/// IPv4 interfaces of this machine; fails where a netmask is not a prefix mask.
pub fn lan_networks(interfaces: &Vec<(u32, u32)>) -> (r: Result<Vec<u32>, ExploreError>)
    ensures
        r is Ok <==> forall|i: int| 0 <= i < interfaces@.len() ==> valid_netmask(#[trigger] interfaces@[i].1),
        r matches Ok(v) ==> v@ == lan_networks_of(interfaces@),
        r is Err ==> (r matches Err(ExploreError::InvalidNetmask)),
{
    let mut nets: Vec<u32> = Vec::new();
    let mut i: usize = 0;
    let n = interfaces.len();
    while i < n
        invariant
            n == interfaces@.len(),
            i <= n,
            forall|j: int| 0 <= j < i ==> valid_netmask(#[trigger] interfaces@[j].1),
            nets@ == lan_networks_of(interfaces@.take(i as int)),
        decreases n - i,
    {
        let (ip, mask) = interfaces[i];
        assert(interfaces@.take(i + 1).drop_last() =~= interfaces@.take(i as int));
        match ipv4_network(ip, mask) {
            None => {
                return Err(ExploreError::InvalidNetmask);
            },
            Some((net, prefix)) => {
                assert(prefix_mask(24) == 0xffff_ff00u32) by (bit_vector);
                if prefix == 24 {
                    nets.push(net);
                } else {
                    proof {
                        if mask == prefix_mask(24) {
                            lemma_prefix_mask_injective(prefix, 24);
                        }
                    }
                }
            },
        }
        i = i + 1;
    }
    assert(interfaces@.take(n as int) =~= interfaces@);
    Ok(nets)
}

/// Distinct prefix lengths give distinct masks.
pub proof fn lemma_prefix_mask_injective(p: u8, q: u8)
    requires
        p <= 32,
        q <= 32,
        prefix_mask(p) == prefix_mask(q),
    ensures
        p == q,
{
    if p != 0 && q != 0 {
        assert(1 <= p <= 32 && 1 <= q <= 32 && (0xffff_ffffu32 << ((32 - p) as u32)) == (0xffff_ffffu32
            << ((32 - q) as u32)) ==> p == q) by (bit_vector);
    } else if p == 0 && q != 0 {
        assert(1 <= q <= 32 ==> (0xffff_ffffu32 << ((32 - q) as u32)) != 0) by (bit_vector);
    } else if q == 0 && p != 0 {
        assert(1 <= p <= 32 ==> (0xffff_ffffu32 << ((32 - p) as u32)) != 0) by (bit_vector);
    }
}

/// This machine's own session id, taken from the local daemon's answer to a
/// ping (absent where no daemon answered).
pub fn local_session_id(reply: Option<IPCResponse>) -> (id: Option<String>)
    ensures
        match reply {
            Some(IPCResponse::Pong(s)) => id == Some(s),
            _ => id is None,
        },
{
    match reply {
        Some(IPCResponse::Pong(s)) => Some(s),
        _ => None,
    }
}

/// The session id and files out of a daemon's answer to a discovery probe;
/// any other answer counts as no answer.
pub fn discovery_answer(response: TCPResponse) -> (r: Option<(String, FileTable)>)
    ensures
        match response {
            TCPResponse::Discovery { session_id, files } => r == Some((session_id, files)),
            _ => r is None,
        },
{
    match response {
        TCPResponse::Discovery { session_id, files } => Some((session_id, files)),
        _ => None,
    }
}

/// The daemons found so far: session id, then address and served files.
pub type ServerTable = StrMap<(u32, FileTable)>;

/// Records a daemon's answer to a discovery probe, unless it comes from this
/// machine's own session or from a session already recorded.
pub fn record_discovery(
    servers: &mut ServerTable,
    local_session: &Option<String>,
    addr: u32,
    session_id: String,
    files: FileTable,
)
    ensures
        (local_session matches Some(l) && l@ == session_id@) || old(servers)@.contains_key(
            session_id@,
        ) ==> final(servers)@ == old(servers)@,
        !((local_session matches Some(l) && l@ == session_id@) || old(servers)@.contains_key(
            session_id@,
        )) ==> final(servers)@ == old(servers)@.insert(session_id@, (addr, files)),
{
    let own = match local_session {
        Some(l) => *l == session_id,
        None => false,
    };
    if own || servers.contains_key(session_id.as_str()) {
        return ;
    }
    servers.insert(session_id, (addr, files));
}

/// The files found on the network: file key, then the session that serves it,
/// that daemon's address, and the file's path and chunk count.
pub type ExploreTable = StrMap<(String, u32, (String, usize))>;

/// Whether the daemon of session `s` serves a file under `fk`.
pub open spec fn offers(servers: Map<Seq<char>, (u32, FileTable)>, s: Seq<char>, fk: Seq<char>) -> bool {
    servers[s].1@.contains_key(fk)
}

/// The files of the first `i` sessions in `sessions`, each file key taken
/// from the last of those sessions that serves it.
pub open spec fn merge_upto(
    sessions: Seq<Seq<char>>,
    servers: Map<Seq<char>, (u32, FileTable)>,
    i: int,
) -> Map<Seq<char>, (Seq<char>, u32, (String, usize))>
    decreases i,
{
    if i <= 0 {
        Map::empty()
    } else {
        let prev = merge_upto(sessions, servers, i - 1);
        let s = sessions[i - 1];
        let files = servers[s].1@;
        Map::new(
            |fk: Seq<char>| prev.contains_key(fk) || files.contains_key(fk),
            |fk: Seq<char>|
                if files.contains_key(fk) {
                    (s, servers[s].0, files[fk])
                } else {
                    prev[fk]
                },
        )
    }
}

/// A table of found files agrees with a merged map, the session id taken by its view.
pub open spec fn agrees(
    results: Map<Seq<char>, (String, u32, (String, usize))>,
    merged: Map<Seq<char>, (Seq<char>, u32, (String, usize))>,
) -> bool {
    &&& forall|fk: Seq<char>| results.contains_key(fk) <==> merged.contains_key(fk)
    &&& forall|fk: Seq<char>|
        #[trigger] results.contains_key(fk) ==> results[fk].0@ == merged[fk].0 && results[fk].1
            == merged[fk].1 && results[fk].2 == merged[fk].2
}

proof fn lemma_merge_winner(
    sessions: Seq<Seq<char>>,
    servers: Map<Seq<char>, (u32, FileTable)>,
    i: int,
)
    requires
        0 <= i <= sessions.len(),
    ensures
        forall|t: int, fk: Seq<char>|
            0 <= t < i && #[trigger] offers(servers, sessions[t], fk) ==> merge_upto(
                sessions,
                servers,
                i,
            ).contains_key(fk),
        forall|fk: Seq<char>| #[trigger]
            merge_upto(sessions, servers, i).contains_key(fk) ==> exists|t: int|
                0 <= t < i && sessions[t] == merge_upto(sessions, servers, i)[fk].0 && offers(
                    servers,
                    sessions[t],
                    fk,
                ) && merge_upto(sessions, servers, i)[fk] == (
                    sessions[t],
                    servers[sessions[t]].0,
                    servers[sessions[t]].1@[fk],
                ) && forall|t2: int| t < t2 < i ==> !offers(servers, #[trigger] sessions[t2], fk),
    decreases i,
{
    if i > 0 {
        lemma_merge_winner(sessions, servers, i - 1);
        let m = merge_upto(sessions, servers, i);
        let prev = merge_upto(sessions, servers, i - 1);
        let s = sessions[i - 1];
        assert forall|t: int, fk: Seq<char>|
            0 <= t < i && #[trigger] offers(servers, sessions[t], fk) implies m.contains_key(fk) by {
            if t < i - 1 {
                assert(prev.contains_key(fk));
            }
        }
        assert forall|fk: Seq<char>| #[trigger] m.contains_key(fk) implies exists|t: int|
            0 <= t < i && sessions[t] == m[fk].0 && offers(servers, sessions[t], fk) && m[fk] == (
                sessions[t],
                servers[sessions[t]].0,
                servers[sessions[t]].1@[fk],
            ) && forall|t2: int| t < t2 < i ==> !offers(servers, #[trigger] sessions[t2], fk) by {
            if offers(servers, s, fk) {
                assert(sessions[i - 1] == m[fk].0);
            } else {
                assert(prev.contains_key(fk));
                let t = choose|t: int|
                    0 <= t < i - 1 && sessions[t] == prev[fk].0 && offers(
                        servers,
                        sessions[t],
                        fk,
                    ) && prev[fk] == (
                        sessions[t],
                        servers[sessions[t]].0,
                        servers[sessions[t]].1@[fk],
                    ) && forall|t2: int| t < t2 < i - 1 ==> !offers(servers, #[trigger] sessions[t2], fk);
                assert(forall|t2: int| t < t2 < i ==> !offers(servers, #[trigger] sessions[t2], fk));
            }
        }
    }
}

/// Where daemons of several sessions serve a file under the same key, the
/// merged table takes it from the session whose id is greatest: every file
/// key that some session serves is in the table, and each entry names a
/// session that serves that key, with that daemon's address and file, and no
/// session that serves the key has a greater id.
pub proof fn law_discovery_prefers_greatest_session(
    sessions: Seq<Seq<char>>,
    servers: Map<Seq<char>, (u32, FileTable)>,
)
    requires
        strictly_sorted(sessions),
        forall|s: Seq<char>| servers.contains_key(s) <==> sessions.contains(s),
    ensures
        forall|s: Seq<char>, fk: Seq<char>|
            servers.contains_key(s) && offers(servers, s, fk) ==> merge_upto(
                sessions,
                servers,
                sessions.len() as int,
            ).contains_key(fk) && (merge_upto(sessions, servers, sessions.len() as int)[fk].0 == s
                || seq_lt(s, merge_upto(sessions, servers, sessions.len() as int)[fk].0)),
        forall|fk: Seq<char>| #[trigger]
            merge_upto(sessions, servers, sessions.len() as int).contains_key(fk) ==> {
                let e = merge_upto(sessions, servers, sessions.len() as int)[fk];
                &&& servers.contains_key(e.0)
                &&& offers(servers, e.0, fk)
                &&& e == (e.0, servers[e.0].0, servers[e.0].1@[fk])
            },
{
    let n = sessions.len() as int;
    let m = merge_upto(sessions, servers, n);
    lemma_merge_winner(sessions, servers, n);
    assert forall|s: Seq<char>, fk: Seq<char>|
        servers.contains_key(s) && offers(servers, s, fk) implies m.contains_key(fk) && (m[fk].0
        == s || seq_lt(s, m[fk].0)) by {
        assert(sessions.contains(s));
        let t1 = sessions.index_of(s);
        assert(sessions[t1] == s);
        assert(offers(servers, sessions[t1], fk));
        assert(m.contains_key(fk));
        let t = choose|t: int|
            0 <= t < n && sessions[t] == m[fk].0 && offers(servers, sessions[t], fk) && m[fk] == (
                sessions[t],
                servers[sessions[t]].0,
                servers[sessions[t]].1@[fk],
            ) && forall|t2: int| t < t2 < n ==> !offers(servers, #[trigger] sessions[t2], fk);
        if t1 < t {
            assert(seq_lt(sessions[t1], sessions[t]));
        } else if t1 > t {
            assert(!offers(servers, sessions[t1], fk));
        }
    }
    assert forall|fk: Seq<char>| #[trigger] m.contains_key(fk) implies {
        let e = m[fk];
        &&& servers.contains_key(e.0)
        &&& offers(servers, e.0, fk)
        &&& e == (e.0, servers[e.0].0, servers[e.0].1@[fk])
    } by {
        let t = choose|t: int|
            0 <= t < n && sessions[t] == m[fk].0 && offers(servers, sessions[t], fk) && m[fk] == (
                sessions[t],
                servers[sessions[t]].0,
                servers[sessions[t]].1@[fk],
            ) && forall|t2: int| t < t2 < n ==> !offers(servers, #[trigger] sessions[t2], fk);
        assert(sessions.contains(sessions[t]));
    }
}

/// Gathers the files of every recorded daemon into one table keyed by file key,
/// walking the sessions in increasing order so that a later session's file
/// replaces an earlier one's under the same key.
pub fn merge_servers(servers: &ServerTable) -> (results: ExploreTable)
    ensures
        agrees(results@, merge_upto(servers.keys(), servers@, servers.keys().len() as int)),
        forall|s: Seq<char>, fk: Seq<char>|
            servers@.contains_key(s) && offers(servers@, s, fk) ==> results@.contains_key(fk) && (
            results@[fk].0@ == s || seq_lt(s, results@[fk].0@)),
        forall|fk: Seq<char>| #[trigger]
            results@.contains_key(fk) ==> {
                let e = results@[fk];
                &&& servers@.contains_key(e.0@)
                &&& offers(servers@, e.0@, fk)
                &&& e.1 == servers@[e.0@].0
                &&& e.2 == servers@[e.0@].1@[fk]
            },
{
    let n = servers.len();
    let ghost sessions = servers.keys();
    let mut results = ExploreTable::new();
    let mut i: usize = 0;
    while i < n
        invariant
            n == sessions.len(),
            sessions == servers.keys(),
            i <= n,
            agrees(results@, merge_upto(sessions, servers@, i as int)),
        decreases n - i,
    {
        let session = servers.key_at(i);
        let entry = servers.value_at(i);
        let addr = entry.0;
        let files = &entry.1;
        let m = files.len();
        let ghost prev = merge_upto(sessions, servers@, i as int);
        let ghost fkeys = files.keys();
        let mut j: usize = 0;
        while j < m
            invariant
                n == sessions.len(),
                sessions == servers.keys(),
                i < n,
                session@ == sessions[i as int],
                *entry == servers@[sessions[i as int]],
                addr == entry.0,
                *files == entry.1,
                m == fkeys.len(),
                fkeys == files.keys(),
                forall|q: Seq<char>| files@.contains_key(q) <==> fkeys.contains(q),
                prev == merge_upto(sessions, servers@, i as int),
                j <= m,
                forall|fk: Seq<char>|
                    results@.contains_key(fk) <==> prev.contains_key(fk) || fkeys.take(
                        j as int,
                    ).contains(fk),
                forall|fk: Seq<char>| #[trigger]
                    results@.contains_key(fk) ==> if fkeys.take(j as int).contains(fk) {
                        results@[fk].0@ == sessions[i as int] && results@[fk].1 == addr
                            && results@[fk].2 == files@[fk]
                    } else {
                        results@[fk].0@ == prev[fk].0 && results@[fk].1 == prev[fk].1
                            && results@[fk].2 == prev[fk].2
                    },
            decreases m - j,
        {
            let fk = files.key_at(j);
            let f = files.value_at(j);
            let value = (session.clone(), addr, (f.0.clone(), f.1));
            let ghost before = results@;
            let key = fk.clone();
            assert(value.2 == *f);
            results.insert(key, value);
            proof {
                let t = fkeys.take(j as int);
                let t2 = fkeys.take(j + 1);
                assert(t2 =~= t.push(fkeys[j as int]));
                assert(fk@ == fkeys[j as int]);
                assert forall|q: Seq<char>|
                    t2.contains(q) <==> t.contains(q) || q == fkeys[j as int] by {
                    if t2.contains(q) {
                        let k = t2.index_of(q);
                        if k < j {
                            assert(t[k] == q);
                        }
                    }
                    if t.contains(q) {
                        let k = t.index_of(q);
                        assert(t2[k] == q);
                    }
                    if q == fkeys[j as int] {
                        assert(t2[j as int] == q);
                    }
                }
                assert(results@ == before.insert(fk@, value));
                assert forall|q: Seq<char>|
                    results@.contains_key(q) <==> prev.contains_key(q) || t2.contains(q) by {
                    if q != fk@ {
                        assert(results@.contains_key(q) == before.contains_key(q));
                    }
                }
            }
            j = j + 1;
        }
        proof {
            assert(fkeys.take(m as int) =~= fkeys);
            let next = merge_upto(sessions, servers@, i + 1);
            assert(sessions[(i + 1) - 1] == sessions[i as int]);
            assert forall|fk: Seq<char>| #[trigger] results@.contains_key(fk) implies results@[fk].0@
                == next[fk].0 && results@[fk].1 == next[fk].1 && results@[fk].2 == next[fk].2 by {
            }
        }
        i = i + 1;
    }
    proof {
        let sv = servers@;
        assert forall|s: Seq<char>| sv.contains_key(s) <==> sessions.contains(s) by {}
        law_discovery_prefers_greatest_session(sessions, sv);
    }
    results
}

} // verus!
