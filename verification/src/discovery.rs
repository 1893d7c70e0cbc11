//! Interpretation of the answers of service discovery: which peer, at
//! which address and port, offers the transfer service.

use vstd::prelude::*;
use crate::text::{
    chars_of, lemma_remove_all_absent, lemma_remove_all_char, lemma_remove_all_char_filter,
    lemma_remove_all_keeps_prefix, occurs_at, occurs_nowhere, remove_all, remove_pattern,
    string_of,
};

verus! {

/// A peer that offers the transfer service.
#[derive(Clone, Debug)]
pub struct TargetPeer {
    /// Host name, without domain and without dots.
    pub hostname: String,
    /// Address, in text form.
    pub ip: String,
    /// Port of the service.
    pub port: u16,
}

impl View for TargetPeer {
    type V = (Seq<char>, Seq<char>, u16);

    open spec fn view(&self) -> (Seq<char>, Seq<char>, u16) {
        (self.hostname@, self.ip@, self.port)
    }
}

impl TargetPeer {
    /// A copy of this peer.
    pub fn duplicate(&self) -> (r: TargetPeer)
        ensures
            r@ == self@,
    {
        TargetPeer { hostname: self.hostname.clone(), ip: self.ip.clone(), port: self.port }
    }
}

/// One additional record of a discovery answer, reduced to what is read
/// from it.
#[derive(Clone, Debug)]
pub enum DnsRecord {
    /// A text record.
    Txt,
    /// A service record: the port and the target host name, in text form.
    Srv { port: u16, target: String },
    /// An IPv4 address, in text form.
    A(String),
    /// An IPv6 address, in text form.
    Aaaa(String),
    /// Any other record, or a record without data.
    Other,
}

/// Port and target of the last service record of `records`.
pub open spec fn last_srv(records: Seq<DnsRecord>) -> Option<(u16, Seq<char>)>
    decreases records.len(),
{
    if records.len() == 0 {
        None
    } else {
        match records.last() {
            DnsRecord::Srv { port, target } => Some((port, target@)),
            _ => last_srv(records.drop_last()),
        }
    }
}

/// The last IPv4 address of `records` that differs from `local_ip`.
pub open spec fn last_v4(records: Seq<DnsRecord>, local_ip: Seq<char>) -> Option<Seq<char>>
    decreases records.len(),
{
    if records.len() == 0 {
        None
    } else {
        match records.last() {
            DnsRecord::A(a) => if a@ != local_ip {
                Some(a@)
            } else {
                last_v4(records.drop_last(), local_ip)
            },
            _ => last_v4(records.drop_last(), local_ip),
        }
    }
}

/// The last IPv6 address of `records`.
pub open spec fn last_v6(records: Seq<DnsRecord>) -> Option<Seq<char>>
    decreases records.len(),
{
    if records.len() == 0 {
        None
    } else {
        match records.last() {
            DnsRecord::Aaaa(a) => Some(a@),
            _ => last_v6(records.drop_last()),
        }
    }
}

/// The local domain suffix that is taken out of host names.
pub open spec fn local_suffix() -> Seq<char> {
    seq!['.', 'l', 'o', 'c', 'a', 'l']
}

/// A host name as shown: `.local` taken out, then every dot.
pub open spec fn clean_hostname(host: Seq<char>) -> Seq<char> {
    remove_all(remove_all(host, local_suffix()), seq!['.'])
}

/// Cleaning a host name takes out only `.local` and the dots: where
/// `.local` does not occur, every character other than a dot is kept, in
/// order; a name without dots comes back unchanged; and of a name without
/// dots followed by `.local.`, the name is what remains.
pub proof fn lemma_clean_hostname_keeps(host: Seq<char>, name: Seq<char>)
    ensures
        occurs_nowhere(host, local_suffix()) ==> clean_hostname(host) == host.filter(
            |c: char| c != '.',
        ),
        !host.contains('.') ==> clean_hostname(host) == host,
        !name.contains('.') ==> clean_hostname(name + local_suffix() + seq!['.']) == name,
{
    let dot = seq!['.'];
    if occurs_nowhere(host, local_suffix()) {
        lemma_remove_all_absent(host, local_suffix());
        lemma_remove_all_char_filter(host, '.');
    }
    if !host.contains('.') {
        assert forall|i: int| !#[trigger] occurs_at(host, local_suffix(), i) by {
            if occurs_at(host, local_suffix(), i) {
                assert(host.subrange(i, i + 6)[0] == '.');
                assert(host[i] == '.');
            }
        }
        lemma_remove_all_absent(host, local_suffix());
        assert forall|i: int| !#[trigger] occurs_at(host, dot, i) by {
            if occurs_at(host, dot, i) {
                assert(host.subrange(i, i + 1)[0] == '.');
                assert(host[i] == '.');
            }
        }
        lemma_remove_all_absent(host, dot);
    }
    if !name.contains('.') {
        let tail = local_suffix() + dot;
        assert(name + local_suffix() + dot =~= name + tail);
        lemma_remove_all_keeps_prefix(name, tail, local_suffix());
        assert(tail.take(6) =~= local_suffix());
        assert(tail.skip(6) =~= dot);
        assert(remove_all(tail, local_suffix()) == remove_all(dot, local_suffix()));
        assert(remove_all(dot, local_suffix()) == dot);
        lemma_remove_all_keeps_prefix(name, dot, dot);
        assert(dot.take(1) =~= dot);
        assert(dot.skip(1) =~= Seq::<char>::empty());
        assert(remove_all(dot, dot) == remove_all(Seq::<char>::empty(), dot));
        assert(name + Seq::<char>::empty() =~= name);
    }
}

/// The peer that the records announce, seen from the machine at
/// `local_ip`: it needs a service record and an address; an IPv4 address
/// other than the local one is preferred to an IPv6 one.
pub open spec fn spec_target_address(records: Seq<DnsRecord>, local_ip: Seq<char>) -> Option<
    (Seq<char>, Seq<char>, u16),
> {
    match last_srv(records) {
        None => None,
        Some((port, host)) => match last_v4(records, local_ip) {
            Some(ip) => Some((clean_hostname(host), ip, port)),
            None => match last_v6(records) {
                Some(ip) => Some((clean_hostname(host), ip, port)),
                None => None,
            },
        },
    }
}

/// A host name as shown: `.local` taken out, then every dot.
pub fn clean_host(host: &String) -> (r: String)
    ensures
        r@ == clean_hostname(host@),
        !r@.contains('.'),
        !host@.contains('.') ==> r@ == host@,
{
    proof {
        lemma_clean_hostname_keeps(host@, host@);
    }
    let chars = chars_of(host.as_str());
    let suffix: Vec<char> = vec!['.', 'l', 'o', 'c', 'a', 'l'];
    assert(suffix@ =~= local_suffix());
    let without_suffix = remove_pattern(&chars, &suffix);
    let dot: Vec<char> = vec!['.'];
    assert(dot@ =~= seq!['.']);
    let without_dots = remove_pattern(&without_suffix, &dot);
    proof {
        lemma_remove_all_char(without_suffix@, '.');
    }
    string_of(&without_dots)
}

/// The peer announced by the additional records of a discovery answer,
/// seen from the machine at `local_ip`.
pub fn get_target_address(records: &Vec<DnsRecord>, local_ip: &String) -> (r: Option<TargetPeer>)
    ensures
        match r {
            Some(p) => spec_target_address(records@, local_ip@) == Some(p@),
            None => spec_target_address(records@, local_ip@) is None,
        },
        r matches Some(p) ==> !p.hostname@.contains('.'),
{
    let mut target_host: Option<String> = None;
    let mut target_ip_v4: Option<String> = None;
    let mut target_ip_v6: Option<String> = None;
    let mut target_port: Option<u16> = None;
    let mut i: usize = 0;
    while i < records.len()
        invariant
            i <= records@.len(),
            match last_srv(records@.take(i as int)) {
                None => target_host is None && target_port is None,
                Some((port, host)) => target_port == Some(port) && target_host is Some
                    && target_host->0@ == host,
            },
            match last_v4(records@.take(i as int), local_ip@) {
                None => target_ip_v4 is None,
                Some(a) => target_ip_v4 is Some && target_ip_v4->0@ == a,
            },
            match last_v6(records@.take(i as int)) {
                None => target_ip_v6 is None,
                Some(a) => target_ip_v6 is Some && target_ip_v6->0@ == a,
            },
        decreases records@.len() - i,
    {
        assert(records@.take(i + 1).drop_last() =~= records@.take(i as int));
        assert(records@.take(i + 1).last() == records@[i as int]);
        match &records[i] {
            DnsRecord::Txt => {},
            DnsRecord::Srv { port, target } => {
                target_port = Some(*port);
                target_host = Some(target.clone());
            },
            DnsRecord::A(a_record) => {
                if !(*a_record == *local_ip) {
                    target_ip_v4 = Some(a_record.clone());
                }
            },
            DnsRecord::Aaaa(aaaa_record) => {
                target_ip_v6 = Some(aaaa_record.clone());
            },
            DnsRecord::Other => {},
        }
        i = i + 1;
    }
    assert(records@.take(i as int) =~= records@);
    match (target_port, target_host) {
        (Some(port), Some(host)) => {
            let ip = match (target_ip_v4, target_ip_v6) {
                (Some(v4), _) => v4,
                (None, Some(v6)) => v6,
                (None, None) => {
                    return None;
                },
            };
            Some(TargetPeer { hostname: clean_host(&host), ip, port })
        },
        _ => None,
    }
}

} // verus!
