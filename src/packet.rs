//! Outbound traffic policy: blocked ports and domains, an address
//! allow-list and a per-minute rate limit.
use vstd::prelude::*;
use crate::seqs::lemma_push_contains;

verus! {

/// Requests allowed within one rate-limit window.
pub const MAX_REQUESTS_PER_MINUTE: u32 = 60;

/// Length of the rate-limit window, in seconds.
pub const RATE_LIMIT_WINDOW_SECS: u64 = 60;

/// Ports no traffic may go to.
pub open spec fn port_blocked(port: u16) -> bool {
    port == 22 || port == 23 || port == 3389 || port == 5900 || port == 6667
}

/// A network address, as the policy reads it.
#[derive(Debug, Clone, Copy, PartialEq, Eq, Structural)]
pub enum IpAddress {
    V4(u8, u8, u8, u8),
    V6,
}

/// A private (10/8, 172.16/12, 192.168/16) or loopback (127/8) address, or
/// the public resolver 8.8.8.8: the addresses traffic may go to.
pub open spec fn address_allowed(ip: IpAddress) -> bool {
    match ip {
        IpAddress::V4(a, b, c, d) => a == 10 || (a == 172 && 16 <= b <= 31) || (a == 192 && b == 168) || a == 127
            || (a == 8 && b == 8 && c == 8 && d == 8),
        IpAddress::V6 => false,
    }
}

pub struct PacketInspector {
    allowed_subnets: Vec<String>,
    blocked_domains: Vec<String>,
    rate_limit_window: u64,
    request_log: Vec<u64>,
}

/// The times kept in the log at `now`: those inside the window.
pub open spec fn recent(now: u64) -> spec_fn(u64) -> bool {
    let cutoff = if now >= RATE_LIMIT_WINDOW_SECS { now - RATE_LIMIT_WINDOW_SECS } else { 0 };
    |t: u64| t > cutoff
}

impl PacketInspector {
    pub closed spec fn requests(&self) -> Seq<u64> {
        self.request_log@
    }

    pub closed spec fn blocked(&self) -> Seq<Seq<char>> {
        self.blocked_domains@.map_values(|s: String| s@)
    }

    /// An inspector with the default policy and an empty request log.
    pub fn new() -> (r: PacketInspector)
        ensures
            r.requests().len() == 0,
            r.blocked() == seq!["malware.com"@, "crypto-miner.pool"@, "botnet.c2"@],
    {
        let mut subnets: Vec<String> = Vec::new();
        subnets.push(String::from_str("192.168.0.0/16"));
        subnets.push(String::from_str("10.0.0.0/8"));
        let mut domains: Vec<String> = Vec::new();
        domains.push(String::from_str("malware.com"));
        domains.push(String::from_str("crypto-miner.pool"));
        domains.push(String::from_str("botnet.c2"));
        let r = PacketInspector { allowed_subnets: subnets, blocked_domains: domains, rate_limit_window: RATE_LIMIT_WINDOW_SECS, request_log: Vec::new() };
        assert(r.blocked() =~= seq!["malware.com"@, "crypto-miner.pool"@, "botnet.c2"@]);
        r
    }

    /// Whether `port` is blocked.
    pub fn is_port_blocked(port: u16) -> (r: bool)
        ensures
            r == port_blocked(port),
    {
        port == 22 || port == 23 || port == 3389 || port == 5900 || port == 6667
    }

    /// Whether traffic may go to `ip`.
    pub fn is_ip_allowed(ip: IpAddress) -> (r: bool)
        ensures
            r == address_allowed(ip),
    {
        match ip {
            IpAddress::V4(a, b, c, d) => a == 10 || (a == 172 && 16 <= b && b <= 31) || (a == 192 && b == 168) || a == 127
                || (a == 8 && b == 8 && c == 8 && d == 8),
            IpAddress::V6 => false,
        }
    }

    /// Whether `host` is a blocked domain.
    pub fn is_domain_blocked(&self, host: &str) -> (r: bool)
        ensures
            r == self.blocked().contains(host@),
    {
        let h = String::from_str(host);
        let mut i: usize = 0;
        while i < self.blocked_domains.len()
            invariant
                h@ == host@,
                i <= self.blocked_domains@.len(),
                forall|j: int| 0 <= j < i ==> self.blocked()[j] != host@,
            decreases self.blocked_domains@.len() - i,
        {
            assert(self.blocked()[i as int] == self.blocked_domains@[i as int]@);
            if self.blocked_domains[i] == h {
                return true;
            }
            i = i + 1;
        }
        false
    }

    /// Records a request at `now` if the window allows it: times older than
    /// the window are dropped first, then the request passes while fewer
    /// than `MAX_REQUESTS_PER_MINUTE` remain.
    pub fn check_rate_limit_at(&mut self, now: u64) -> (r: bool)
        ensures
            r == (old(self).requests().filter(recent(now)).len() < MAX_REQUESTS_PER_MINUTE),
            r ==> final(self).requests() == old(self).requests().filter(recent(now)).push(now),
            !r ==> final(self).requests() == old(self).requests().filter(recent(now)),
            final(self).blocked() == old(self).blocked(),
    {
        let cutoff = if now >= RATE_LIMIT_WINDOW_SECS { now - RATE_LIMIT_WINDOW_SECS } else { 0 };
        let ghost pred = recent(now);
        let mut kept: Vec<u64> = Vec::new();
        let mut i: usize = 0;
        while i < self.request_log.len()
            invariant
                i <= self.request_log@.len(),
                self.request_log == old(self).request_log,
                pred == recent(now),
                cutoff == (if now >= RATE_LIMIT_WINDOW_SECS { now - RATE_LIMIT_WINDOW_SECS } else { 0 }),
                kept@ == self.request_log@.subrange(0, i as int).filter(pred),
            decreases self.request_log@.len() - i,
        {
            let t = self.request_log[i];
            proof {
                let s0 = self.request_log@.subrange(0, i as int);
                assert(self.request_log@.subrange(0, i + 1) =~= s0.push(t));
                s0.lemma_filter_push(t, pred);
            }
            if t > cutoff {
                kept.push(t);
            }
            i = i + 1;
        }
        assert(self.request_log@.subrange(0, self.request_log@.len() as int) =~= self.request_log@);
        self.request_log = kept;
        if self.request_log.len() >= MAX_REQUESTS_PER_MINUTE as usize {
            return false;
        }
        self.request_log.push(now);
        true
    }

    /// Records a request now if the window allows it.
    pub fn check_rate_limit(&mut self) -> (r: bool)
        ensures
            final(self).blocked() == old(self).blocked(),
    {
        self.check_rate_limit_at(crate::clock::unix_time_secs())
    }

    /// Decides an outbound connection at `now`: refused to a blocked port,
    /// a blocked domain, an address off the allow-list, or beyond the rate
    /// limit; only a connection that passes the first three is counted
    /// against the rate limit.
    pub fn inspect_outbound_at(&mut self, ip: IpAddress, port: u16, hostname: Option<&str>, now: u64) -> (r: bool)
        ensures
            final(self).blocked() == old(self).blocked(),
            r == (!port_blocked(port)
                && !(hostname matches Some(h) && old(self).blocked().contains(h@))
                && address_allowed(ip)
                && old(self).requests().filter(recent(now)).len() < MAX_REQUESTS_PER_MINUTE),
            (port_blocked(port) || (hostname matches Some(h) && old(self).blocked().contains(h@)) || !address_allowed(ip))
                ==> final(self).requests() == old(self).requests(),
    {
        if PacketInspector::is_port_blocked(port) {
            return false;
        }
        match hostname {
            Some(h) => {
                if self.is_domain_blocked(h) {
                    return false;
                }
            },
            None => {},
        }
        if !PacketInspector::is_ip_allowed(ip) {
            return false;
        }
        self.check_rate_limit_at(now)
    }

    /// Decides an outbound connection now.
    pub fn inspect_outbound(&mut self, ip: IpAddress, port: u16, hostname: Option<&str>) -> (r: bool)
        ensures
            r ==> !port_blocked(port) && address_allowed(ip),
            port_blocked(port) ==> !r,
    {
        self.inspect_outbound_at(ip, port, hostname, crate::clock::unix_time_secs())
    }

    /// Adds domains to the block list; each is kept once.
    pub fn update_rules(&mut self, new_blocked: Vec<String>)
        ensures
            forall|x: Seq<char>| final(self).blocked().contains(x) <==> (old(self).blocked().contains(x)
                || new_blocked@.map_values(|s: String| s@).contains(x)),
            final(self).requests() == old(self).requests(),
    {
        let ghost nb = new_blocked@.map_values(|s: String| s@);
        let mut i: usize = 0;
        while i < new_blocked.len()
            invariant
                i <= new_blocked@.len(),
                nb == new_blocked@.map_values(|s: String| s@),
                self.request_log == old(self).request_log,
                forall|x: Seq<char>| self.blocked().contains(x) <==> (old(self).blocked().contains(x)
                    || nb.subrange(0, i as int).contains(x)),
            decreases new_blocked@.len() - i,
        {
            let d = &new_blocked[i];
            let ghost prev = self.blocked();
            assert(nb[i as int] == d@);
            if !self.is_domain_blocked(d.as_str()) {
                self.blocked_domains.push(d.clone());
                assert(self.blocked() =~= prev.push(d@));
            }
            assert forall|x: Seq<char>| self.blocked().contains(x) <==> (old(self).blocked().contains(x)
                || nb.subrange(0, i + 1).contains(x)) by {
                assert(nb.subrange(0, i + 1) =~= nb.subrange(0, i as int).push(d@));
                lemma_push_contains(nb.subrange(0, i as int), d@, x);
                lemma_push_contains(prev, d@, x);
            }
            i = i + 1;
        }
        assert(nb.subrange(0, nb.len() as int) =~= nb);
    }
}

} // verus!
