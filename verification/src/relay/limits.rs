//! How many connections a relay takes, in all and from one address.
use crate::strmap::StrMap;
use vstd::prelude::*;

verus! {

/// A number that can be kept in a map.
pub struct Count {
    pub n: usize,
}

impl View for Count {
    type V = usize;

    open spec fn view(&self) -> usize {
        self.n
    }
}

/// What is known of the connections.
#[verifier::ext_equal]
pub struct LimitsModel {
    pub active: usize,
    pub max_conns: usize,
    pub max_per_ip: usize,
    pub per_ip: Map<Seq<char>, usize>,
}

pub struct Limits {
    active: usize,
    max_conns: usize,
    max_per_ip: usize,
    per_ip: StrMap<Count>,
}

impl View for Limits {
    type V = LimitsModel;

    closed spec fn view(&self) -> LimitsModel {
        LimitsModel {
            active: self.active,
            max_conns: self.max_conns,
            max_per_ip: self.max_per_ip,
            per_ip: self.per_ip@,
        }
    }
}

/// The number of connections from an address.
pub open spec fn from_ip(m: LimitsModel, ip: Seq<char>) -> usize {
    if m.per_ip.contains_key(ip) {
        m.per_ip[ip]
    } else {
        0
    }
}

/// Whether a connection is taken, and what is known then.
pub open spec fn admitted(m: LimitsModel, ip: Seq<char>) -> (LimitsModel, bool) {
    if m.active >= m.max_conns {
        (m, false)
    } else if from_ip(m, ip) >= m.max_per_ip {
        (LimitsModel { per_ip: m.per_ip.insert(ip, from_ip(m, ip)), ..m }, false)
    } else {
        (
            LimitsModel {
                active: (m.active + 1) as usize,
                per_ip: m.per_ip.insert(ip, (from_ip(m, ip) + 1) as usize),
                ..m
            },
            true,
        )
    }
}

/// What is known after a connection has ended. An address without connections is forgotten.
pub open spec fn released(m: LimitsModel, ip: Seq<char>) -> LimitsModel {
    LimitsModel {
        active: m.active.wrapping_sub(1),
        per_ip: if !m.per_ip.contains_key(ip) {
            m.per_ip
        } else if m.per_ip[ip] == 1 {
            m.per_ip.remove(ip)
        } else {
            m.per_ip.insert(ip, m.per_ip[ip].wrapping_sub(1))
        },
        ..m
    }
}

impl Limits {
    pub fn new(max_conns: usize, max_per_ip: usize) -> (r: Limits)
        ensures
            r@ == (LimitsModel { active: 0, max_conns, max_per_ip, per_ip: Map::empty() }),
    {
        Limits { active: 0, max_conns, max_per_ip, per_ip: StrMap::new() }
    }

    /// The number of connections.
    pub fn active(&self) -> (r: usize)
        ensures
            r == self@.active,
    {
        self.active
    }

    /// Tries to take a connection from an address. Nothing is taken beyond a limit.
    pub fn try_admit(&mut self, ip: &str) -> (r: bool)
        ensures
            (final(self)@, r) == admitted(old(self)@, ip@),
    {
        if self.active >= self.max_conns {
            return false;
        }
        let c: usize = match self.per_ip.get(ip) {
            Some(x) => x.n,
            None => 0,
        };
        if c >= self.max_per_ip {
            self.per_ip.insert(ip.to_owned(), Count { n: c });
            return false;
        }
        self.active = self.active + 1;
        self.per_ip.insert(ip.to_owned(), Count { n: c + 1 });
        true
    }

    /// Ends a connection from the address.
    pub fn release(&mut self, ip: &str)
        ensures
            final(self)@ == released(old(self)@, ip@),
    {
        self.active = self.active.wrapping_sub(1);
        let known: Option<usize> = match self.per_ip.get(ip) {
            Some(x) => Some(x.n),
            None => None,
        };
        if let Some(c) = known {
            if c == 1 {
                self.per_ip.remove(ip);
            } else {
                self.per_ip.insert(ip.to_owned(), Count { n: c.wrapping_sub(1) });
            }
        }
    }
}

/// A connection is taken only within the limits, and the limits hold after it.
pub proof fn law_limits_hold(m: LimitsModel, ip: Seq<char>)
    requires
        m.active <= m.max_conns,
        from_ip(m, ip) <= m.max_per_ip,
    ensures
        ({
            let (after, taken) = admitted(m, ip);
            &&& taken == (m.active < m.max_conns && from_ip(m, ip) < m.max_per_ip)
            &&& after.active <= after.max_conns
            &&& from_ip(after, ip) <= after.max_per_ip
            &&& !taken ==> after.active == m.active && from_ip(after, ip) == from_ip(m, ip)
        }),
{
}

/// Ending a connection that was taken leaves what there was before it. An address that is known has a
/// connection.
pub proof fn law_release_undoes_admit(m: LimitsModel, ip: Seq<char>)
    requires
        admitted(m, ip).1,
        m.per_ip.contains_key(ip) ==> m.per_ip[ip] >= 1,
    ensures
        released(admitted(m, ip).0, ip) == m,
{
    let after = admitted(m, ip).0;
    assert(released(after, ip).per_ip =~= m.per_ip);
}

/// The connections of one address do not count for another.
pub proof fn law_addresses_are_apart(m: LimitsModel, ip: Seq<char>, other: Seq<char>)
    requires
        ip != other,
    ensures
        from_ip(admitted(m, ip).0, other) == from_ip(m, other),
        from_ip(released(m, ip), other) == from_ip(m, other),
{
}

} // verus!
