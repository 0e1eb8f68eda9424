//! Reading the system's DNS configuration for the sinkhole: the upstream
//! resolvers in `resolv.conf`, the network services and their DNS servers
//! as `networksetup` lists them, and the arguments that set them.
use vstd::prelude::*;

use crate::state::texts;
use crate::text::{
    chars_of, has_prefix, lines, lines_of, prefix_stripped, starts_with, string_of, strip_prefix,
    trim, trim_chars,
};

verus! {

/// Port of the DNS service.
pub const DNS_PORT: u16 = 53;

/// What `networksetup -getdnsservers` prints for a service with no servers
/// of its own.
pub const NO_DNS_SERVERS: &'static str = "aren't any DNS Servers";

/// The address text of a `nameserver` line of `resolv.conf`.
pub open spec fn nameserver_field(line: Seq<char>) -> Option<Seq<char>> {
    match strip_prefix(trim(line), "nameserver"@) {
        Some(rest) => Some(trim(rest)),
        None => None,
    }
}

/// The address texts of the `nameserver` lines among `ls`, in order.
pub open spec fn nameserver_fields(ls: Seq<Seq<char>>) -> Seq<Seq<char>>
    decreases ls.len(),
{
    if ls.len() == 0 {
        Seq::empty()
    } else {
        nameserver_fields(ls.drop_last()) + match nameserver_field(ls.last()) {
            Some(f) => seq![f],
            None => Seq::<Seq<char>>::empty(),
        }
    }
}

/// The address texts of the `nameserver` lines of a `resolv.conf`, in
/// order; the daemon keeps those that parse as non-loopback addresses.
pub fn resolv_conf_nameservers(text: &str) -> (r: Vec<String>)
    ensures
        texts(r@) == nameserver_fields(lines(text@)),
{
    let chars = chars_of(text);
    let ls = lines_of(&chars);
    let ghost all = lines(text@);
    let keyword = chars_of("nameserver");
    let mut r: Vec<String> = Vec::new();
    let mut i: usize = 0;
    proof {
        assert(texts(r@) =~= nameserver_fields(all.take(0)));
    }
    while i < ls.len()
        invariant
            i <= ls.len(),
            ls@.map_values(|v: Vec<char>| v@) == all,
            keyword@ == "nameserver"@,
            texts(r@) == nameserver_fields(all.take(i as int)),
        decreases ls.len() - i,
    {
        let line = trim_chars(&ls[i]);
        let ghost before = texts(r@);
        proof {
            let t = all.take(i + 1);
            assert(t.drop_last() =~= all.take(i as int));
            assert(t.last() == ls@[i as int]@);
        }
        match prefix_stripped(&line, &keyword) {
            Some(rest) => {
                r.push(string_of(&trim_chars(&rest)));
                proof {
                    assert(texts(r@) =~= before + seq![trim(rest@)]);
                }
            },
            None => {
                proof {
                    assert(texts(r@) =~= before + Seq::<Seq<char>>::empty());
                }
            },
        }
        i += 1;
    }
    proof {
        assert(all.take(ls.len() as int) =~= all);
    }
    r
}

/// The IPv4 loopback network `127.0.0.0/8` and the IPv6 loopback `::1`.
pub open spec fn loopback(octets: Seq<u8>) -> bool {
    (octets.len() == 4 && octets[0] == 127) || (octets.len() == 16 && (forall|i: int|
        0 <= i < 15 ==> octets[i] == 0) && octets[15] == 1)
}

/// Whether an address (4 or 16 octets) is a loopback address; the sinkhole
/// must not forward to itself.
pub fn is_loopback(octets: &[u8]) -> (r: bool)
    ensures
        r == loopback(octets@),
{
    if octets.len() == 4 {
        return octets[0] == 127;
    }
    if octets.len() != 16 || octets[15] != 1 {
        return false;
    }
    let mut i: usize = 0;
    while i < 15
        invariant
            i <= 15,
            octets@.len() == 16,
            forall|k: int| 0 <= k < i ==> octets@[k] == 0,
        decreases 15 - i,
    {
        if octets[i] != 0 {
            return false;
        }
        i += 1;
    }
    true
}

/// The addresses among `addrs` that are not loopback addresses, in order.
pub open spec fn non_loopback(addrs: Seq<Seq<u8>>) -> Seq<Seq<u8>>
    decreases addrs.len(),
{
    if addrs.len() == 0 {
        Seq::empty()
    } else {
        non_loopback(addrs.drop_last()) + if loopback(addrs.last()) {
            Seq::<Seq<u8>>::empty()
        } else {
            seq![addrs.last()]
        }
    }
}

/// The public resolvers used when the system names none: `1.1.1.1` and
/// `8.8.8.8`.
pub open spec fn fallback_servers() -> Seq<Seq<u8>> {
    seq![seq![1u8, 1u8, 1u8, 1u8], seq![8u8, 8u8, 8u8, 8u8]]
}

/// The upstream resolvers given the addresses of the `nameserver` lines:
/// those that are not loopback (the sinkhole must not forward to itself),
/// in order, or the public fallback when none is left.
pub open spec fn upstream(addrs: Seq<Seq<u8>>) -> Seq<Seq<u8>> {
    if non_loopback(addrs).len() > 0 {
        non_loopback(addrs)
    } else {
        fallback_servers()
    }
}

fn copy_octets(a: &[u8]) -> (r: Vec<u8>)
    ensures
        r@ == a@,
{
    let mut r: Vec<u8> = Vec::new();
    let mut i: usize = 0;
    while i < a.len()
        invariant
            i <= a.len(),
            r@ == a@.take(i as int),
        decreases a.len() - i,
    {
        r.push(a[i]);
        proof {
            assert(a@.take(i + 1) =~= a@.take(i as int).push(a@[i as int]));
        }
        i += 1;
    }
    proof {
        assert(a@.take(a.len() as int) =~= a@);
    }
    r
}

/// Chooses the upstream resolvers (see [`upstream`]) from the addresses, as
/// octets, of a `resolv.conf`'s `nameserver` lines (none when it could not be
/// read).
pub fn upstream_servers(parsed: &[Vec<u8>]) -> (r: Vec<Vec<u8>>)
    ensures
        r@.map_values(|v: Vec<u8>| v@) == upstream(parsed@.map_values(|v: Vec<u8>| v@)),
{
    let ghost all = parsed@.map_values(|v: Vec<u8>| v@);
    let mut r: Vec<Vec<u8>> = Vec::new();
    let mut i: usize = 0;
    proof {
        assert(r@.map_values(|v: Vec<u8>| v@) =~= non_loopback(all.take(0)));
    }
    while i < parsed.len()
        invariant
            i <= parsed.len(),
            all == parsed@.map_values(|v: Vec<u8>| v@),
            r@.map_values(|v: Vec<u8>| v@) == non_loopback(all.take(i as int)),
        decreases parsed.len() - i,
    {
        let ghost before = r@.map_values(|v: Vec<u8>| v@);
        proof {
            assert(all.take(i + 1).drop_last() =~= all.take(i as int));
            assert(all.take(i + 1).last() == parsed@[i as int]@);
        }
        if !is_loopback(parsed[i].as_slice()) {
            r.push(copy_octets(parsed[i].as_slice()));
            proof {
                assert(r@.map_values(|v: Vec<u8>| v@) =~= before + seq![parsed@[i as int]@]);
            }
        } else {
            proof {
                assert(r@.map_values(|v: Vec<u8>| v@) =~= before + Seq::<Seq<u8>>::empty());
            }
        }
        i += 1;
    }
    proof {
        assert(all.take(parsed.len() as int) =~= all);
    }
    if r.len() > 0 {
        return r;
    }
    let mut fallback: Vec<Vec<u8>> = Vec::new();
    let mut one: Vec<u8> = Vec::new();
    one.push(1u8);
    one.push(1u8);
    one.push(1u8);
    one.push(1u8);
    let mut eight: Vec<u8> = Vec::new();
    eight.push(8u8);
    eight.push(8u8);
    eight.push(8u8);
    eight.push(8u8);
    assert(one@ =~= seq![1u8, 1u8, 1u8, 1u8]);
    assert(eight@ =~= seq![8u8, 8u8, 8u8, 8u8]);
    fallback.push(one);
    fallback.push(eight);
    proof {
        let f = fallback@.map_values(|v: Vec<u8>| v@);
        assert(f[0] == seq![1u8, 1u8, 1u8, 1u8]);
        assert(f[1] == seq![8u8, 8u8, 8u8, 8u8]);
        assert(f =~= fallback_servers());
    }
    fallback
}

/// The active service names of a `networksetup -listallnetworkservices`
/// listing: every line after the header, trimmed, except blank lines and
/// disabled services (marked with a leading `*`).
pub open spec fn service_names(ls: Seq<Seq<char>>) -> Seq<Seq<char>>
    decreases ls.len(),
{
    if ls.len() == 0 {
        Seq::empty()
    } else {
        let t = trim(ls.last());
        service_names(ls.drop_last()) + if t.len() > 0 && t[0] != '*' {
            seq![t]
        } else {
            Seq::<Seq<char>>::empty()
        }
    }
}

/// The lines after the first one.
pub open spec fn after_header(ls: Seq<Seq<char>>) -> Seq<Seq<char>> {
    if ls.len() > 0 {
        ls.skip(1)
    } else {
        Seq::empty()
    }
}

/// Parses a network-service listing (see [`service_names`]).
pub fn network_services(listing: &str) -> (r: Vec<String>)
    ensures
        texts(r@) == service_names(after_header(lines(listing@))),
{
    let chars = chars_of(listing);
    let ls = lines_of(&chars);
    let ghost all = lines(listing@);
    let mut r: Vec<String> = Vec::new();
    if ls.len() == 0 {
        proof {
            assert(texts(r@) =~= Seq::<Seq<char>>::empty());
        }
        return r;
    }
    let ghost body = all.skip(1);
    let mut i: usize = 1;
    proof {
        assert(texts(r@) =~= service_names(body.take(0)));
    }
    while i < ls.len()
        invariant
            1 <= i <= ls.len(),
            ls@.map_values(|v: Vec<char>| v@) == all,
            body == all.skip(1),
            texts(r@) == service_names(body.take(i - 1)),
        decreases ls.len() - i,
    {
        let t = trim_chars(&ls[i]);
        let ghost before = texts(r@);
        proof {
            let s = body.take(i as int);
            assert(s.drop_last() =~= body.take(i - 1));
            assert(s.last() == ls@[i as int]@);
        }
        if t.len() > 0 && t[0] != '*' {
            r.push(string_of(&t));
            proof {
                assert(texts(r@) =~= before + seq![t@]);
            }
        } else {
            proof {
                assert(texts(r@) =~= before + Seq::<Seq<char>>::empty());
            }
        }
        i += 1;
    }
    proof {
        assert(body.take(ls.len() - 1) =~= body);
    }
    r
}

/// Whether `pat` occurs in `s`.
pub open spec fn has_infix(s: Seq<char>, pat: Seq<char>) -> bool {
    exists|i: int| 0 <= i && i + pat.len() <= s.len() && #[trigger] s.subrange(i, i + pat.len()) == pat
}

fn occurs_in(s: &[char], pat: &[char]) -> (r: bool)
    ensures
        r == has_infix(s@, pat@),
{
    if pat.len() > s.len() {
        return false;
    }
    if pat.len() == 0 {
        proof {
            assert(s@.subrange(0int, 0int + pat@.len()) =~= pat@);
        }
        return true;
    }
    let mut i: usize = 0;
    let last = s.len() - pat.len();
    while i <= last
        invariant
            pat.len() <= s.len(),
            last == s.len() - pat.len(),
            pat.len() > 0,
            i <= last + 1,
            forall|k: int| 0 <= k < i ==> #[trigger] s@.subrange(k, k + pat@.len()) != pat@,
        decreases last + 1 - i,
    {
        let window = crate::text::slice_chars(s, i, i + pat.len());
        if crate::text::chars_eq(&window, pat) {
            return true;
        }
        i += 1;
    }
    proof {
        assert forall|k: int| 0 <= k && k + pat@.len() <= s@.len() implies #[trigger] s@.subrange(
            k,
            k + pat@.len(),
        ) != pat@ by {
            assert(k < i);
        }
    }
    false
}

/// The candidate server lines of `networksetup -getdnsservers` output:
/// none when it reports that there are no servers, otherwise every line,
/// trimmed (the daemon keeps those that parse as addresses).
pub open spec fn dns_server_lines(output: Seq<char>) -> Seq<Seq<char>> {
    if has_infix(output, NO_DNS_SERVERS@) {
        Seq::empty()
    } else {
        lines(output).map_values(|l: Seq<char>| trim(l))
    }
}

/// Parses `networksetup -getdnsservers` output (see [`dns_server_lines`]).
pub fn dns_server_candidates(output: &str) -> (r: Vec<String>)
    ensures
        texts(r@) == dns_server_lines(output@),
{
    let chars = chars_of(output);
    let marker = chars_of(NO_DNS_SERVERS);
    let mut r: Vec<String> = Vec::new();
    if occurs_in(&chars, &marker) {
        proof {
            assert(texts(r@) =~= Seq::<Seq<char>>::empty());
        }
        return r;
    }
    let ls = lines_of(&chars);
    let ghost all = lines(output@);
    let mut i: usize = 0;
    while i < ls.len()
        invariant
            i <= ls.len(),
            ls@.map_values(|v: Vec<char>| v@) == all,
            texts(r@) == all.take(i as int).map_values(|l: Seq<char>| trim(l)),
        decreases ls.len() - i,
    {
        let ghost before = texts(r@);
        r.push(string_of(&trim_chars(&ls[i])));
        proof {
            assert(ls@[i as int]@ == all[i as int]);
            assert(texts(r@) =~= before.push(trim(all[i as int])));
            assert(all.take(i + 1).map_values(|l: Seq<char>| trim(l)) =~= all.take(
                i as int,
            ).map_values(|l: Seq<char>| trim(l)).push(trim(all[i as int])));
        }
        i += 1;
    }
    proof {
        assert(all.take(ls.len() as int) =~= all);
    }
    r
}

/// The arguments of `networksetup` that set `service`'s DNS servers to
/// `servers`; no servers restores the DHCP-provided ones (`Empty`).
pub open spec fn set_dns_arguments(service: Seq<char>, servers: Seq<Seq<char>>) -> Seq<Seq<char>> {
    seq!["-setdnsservers"@, service] + if servers.len() == 0 {
        seq!["Empty"@]
    } else {
        servers
    }
}

/// Builds the `networksetup` arguments that set a service's DNS servers.
pub fn set_dns_args(service: &str, servers: &[String]) -> (r: Vec<String>)
    ensures
        texts(r@) == set_dns_arguments(service@, texts(servers@)),
{
    let mut r: Vec<String> = Vec::new();
    r.push("-setdnsservers".to_owned());
    r.push(service.to_owned());
    let ghost head = texts(r@);
    proof {
        assert(head =~= seq!["-setdnsservers"@, service@]);
    }
    if servers.len() == 0 {
        r.push("Empty".to_owned());
        proof {
            assert(texts(r@) =~= set_dns_arguments(service@, texts(servers@)));
        }
        return r;
    }
    let mut i: usize = 0;
    while i < servers.len()
        invariant
            i <= servers.len(),
            head == seq!["-setdnsservers"@, service@],
            texts(r@) == head + texts(servers@).take(i as int),
        decreases servers.len() - i,
    {
        let ghost before = texts(r@);
        r.push(servers[i].clone());
        proof {
            assert(texts(r@) =~= before.push(servers@[i as int]@));
            assert(texts(servers@).take(i + 1) =~= texts(servers@).take(i as int).push(
                servers@[i as int]@,
            ));
        }
        i += 1;
    }
    proof {
        assert(texts(servers@).take(servers.len() as int) =~= texts(servers@));
    }
    r
}


/// The address every captured service's DNS is pointed at: the sinkhole.
pub const SINKHOLE_ADDRESS: &'static str = "127.0.0.1";

/// The services whose DNS was redirected to the sinkhole, each with the
/// servers it had before (none meaning DHCP-provided), in capture order.
/// Restoring them is what the daemon does on every exit path.
pub struct DnsGuard {
    saved: Vec<(String, Vec<String>)>,
}

impl DnsGuard {
    /// The captured services and their previous servers, in capture order.
    pub closed spec fn saved(&self) -> Seq<(Seq<char>, Seq<Seq<char>>)> {
        self.saved@.map_values(|p: (String, Vec<String>)| (p.0@, texts(p.1@)))
    }

    /// A guard that has captured nothing yet.
    pub fn new() -> (r: DnsGuard)
        ensures
            r.saved() == Seq::<(Seq<char>, Seq<Seq<char>>)>::empty(),
    {
        let r = DnsGuard { saved: Vec::new() };
        proof {
            assert(r.saved() =~= Seq::<(Seq<char>, Seq<Seq<char>>)>::empty());
        }
        r
    }

    /// Records that `service` had the DNS servers `previous` and returns the
    /// `networksetup` arguments that point it at the sinkhole.
    pub fn redirect(&mut self, service: &str, previous: Vec<String>) -> (r: Vec<String>)
        ensures
            final(self).saved() == old(self).saved().push((service@, texts(previous@))),
            texts(r@) == set_dns_arguments(service@, seq![SINKHOLE_ADDRESS@]),
    {
        let mut to: Vec<String> = Vec::new();
        to.push(SINKHOLE_ADDRESS.to_owned());
        let r = set_dns_args(service, to.as_slice());
        proof {
            assert(texts(to@) =~= seq![SINKHOLE_ADDRESS@]);
        }
        let ghost before = self.saved();
        self.saved.push((service.to_owned(), previous));
        proof {
            assert(self.saved() =~= before.push((service@, texts(previous@))));
        }
        r
    }

    /// The `networksetup` argument lists that give every captured service
    /// back the servers it had, in capture order.
    pub fn restore_commands(&self) -> (r: Vec<Vec<String>>)
        ensures
            r@.len() == self.saved().len(),
            forall|i: int|
                0 <= i < r@.len() ==> texts(#[trigger] r@[i]@) == set_dns_arguments(
                    self.saved()[i].0,
                    self.saved()[i].1,
                ),
    {
        let mut r: Vec<Vec<String>> = Vec::new();
        let mut i: usize = 0;
        while i < self.saved.len()
            invariant
                i <= self.saved@.len(),
                r@.len() == i,
                forall|k: int|
                    0 <= k < i ==> texts(#[trigger] r@[k]@) == set_dns_arguments(
                        self.saved()[k].0,
                        self.saved()[k].1,
                    ),
            decreases self.saved@.len() - i,
        {
            let (service, servers) = &self.saved[i];
            r.push(set_dns_args(service.as_str(), servers.as_slice()));
            i += 1;
        }
        r
    }
}

} // verus!
