//! Names, security group rules and DNS records of an instance.

use vstd::prelude::*;

use crate::ports;
use crate::ports::{is_reserved, usable, PortMapping};
use crate::text::strings;

verus! {

/// The range of all addresses.
pub open spec fn anywhere() -> Seq<char> {
    "0.0.0.0/0"@
}

/// The domain name of an instance.
pub open spec fn domain_of(name: Seq<char>) -> Seq<char> {
    name + ".ui.rancher.space"@
}

pub fn fqdn(name: &str) -> (r: String)
    ensures
        r@ == domain_of(name@),
{
    let mut r = name.to_owned();
    r.append(".ui.rancher.space");
    r
}

/// The name of the security group that is created for an instance.
pub open spec fn group_of(name: Seq<char>) -> Seq<char> {
    "roa-"@ + name
}

pub fn security_group_name(name: &str) -> (r: String)
    ensures
        r@ == group_of(name@),
{
    let mut r = "roa-".to_owned();
    r.append(name);
    r
}

/// What a created security group is described with.
pub const SECURITY_GROUP_DESCRIPTION: &'static str = "ROA: Rancher development security group";

/// A rule of a security group: a TCP port that is open to a range.
#[derive(Debug)]
pub struct IngressRule {
    pub port: u16,
    pub cidr: String,
}

/// The port and the range of a rule.
pub open spec fn rule_views(rules: Seq<IngressRule>) -> Seq<(u16, Seq<char>)> {
    Seq::new(rules.len(), |i: int| (rules[i].port, rules[i].cidr@))
}

/// The rules for extra ports: open to all, by their host side.
pub open spec fn extra_rules(ports: Seq<PortMapping>) -> Seq<(u16, Seq<char>)> {
    Seq::new(ports.len(), |i: int| (ports[i].host, anywhere()))
}

/// The rules of a security group. SSH is open to the given range; everything else is open to all.
pub open spec fn rules_of(ports: Seq<PortMapping>, ssh_cidr: Seq<char>) -> Seq<(u16, Seq<char>)> {
    seq![(22u16, ssh_cidr), (443u16, anywhere()), (80u16, anywhere())] + extra_rules(ports)
}

fn rule(port: u16, cidr: &str) -> (r: IngressRule)
    ensures
        r.port == port,
        r.cidr@ == cidr@,
{
    IngressRule { port, cidr: cidr.to_owned() }
}

/// The rules of the security group that is created for an instance.
pub fn ingress_rules(ports: &[PortMapping], ssh_cidr: &str) -> (r: Vec<IngressRule>)
    ensures
        rule_views(r@) == rules_of(ports@, ssh_cidr@),
{
    let mut r: Vec<IngressRule> = Vec::new();
    r.push(rule(22, ssh_cidr));
    r.push(rule(443, "0.0.0.0/0"));
    r.push(rule(80, "0.0.0.0/0"));
    let mut i: usize = 0;
    assert(rule_views(r@) =~= rules_of(ports@.take(0), ssh_cidr@));
    while i < ports.len()
        invariant
            i <= ports.len(),
            rule_views(r@) == rules_of(ports@.take(i as int), ssh_cidr@),
        decreases ports.len() - i,
    {
        let ghost before = r@;
        r.push(rule(ports[i].host(), "0.0.0.0/0"));
        assert(rule_views(r@) =~= rule_views(before).push((ports@[i as int].host, anywhere())));
        assert(rules_of(ports@.take(i + 1), ssh_cidr@) =~= rules_of(
            ports@.take(i as int),
            ssh_cidr@,
        ).push((ports@[i as int].host, anywhere())));
        i += 1;
    }
    assert(ports@.take(i as int) =~= ports@);
    r
}

/// The rules for usable ports never repeat a port, which EC2 would reject.
pub proof fn rules_never_repeat(ports: Seq<PortMapping>, ssh_cidr: Seq<char>)
    ensures
        ({
            let rules = rules_of(usable(ports), ssh_cidr);
            forall|i: int, j: int|
                0 <= i < j < rules.len() ==> (#[trigger] rules[i]).0 != (#[trigger] rules[j]).0
        }),
{
    ports::usable_hosts_are_new(ports);
    let kept = usable(ports);
    let rules = rules_of(kept, ssh_cidr);
    assert forall|i: int, j: int| 0 <= i < j < rules.len() implies (#[trigger] rules[i]).0 != (
    #[trigger] rules[j]).0 by {
        if j >= 3 {
            assert(rules[j].0 == kept[j - 3].host);
            assert(!is_reserved(kept[j - 3].host));
            if i >= 3 {
                assert(rules[i].0 == kept[i - 3].host);
            }
        }
    }
}

/// The range for SSH scopes SSH alone: every other port is open to all.
pub proof fn only_ssh_is_scoped(ports: Seq<PortMapping>, ssh_cidr: Seq<char>)
    ensures
        ({
            let rules = rules_of(usable(ports), ssh_cidr);
            forall|i: int|
                0 <= i < rules.len() ==> (#[trigger] rules[i]).1 == if rules[i].0 == 22 {
                    ssh_cidr
                } else {
                    anywhere()
                }
        }),
{
    ports::usable_hosts_are_new(ports);
    let kept = usable(ports);
    let rules = rules_of(kept, ssh_cidr);
    assert forall|i: int| 0 <= i < rules.len() implies (#[trigger] rules[i]).1 == if rules[i].0
        == 22 {
        ssh_cidr
    } else {
        anywhere()
    } by {
        if i >= 3 {
            assert(rules[i].0 == kept[i - 3].host);
            assert(!is_reserved(kept[i - 3].host));
        }
    }
}

/// What a change does to a record set.
#[derive(Debug, Clone, Copy, PartialEq, Eq, Structural)]
pub enum DnsAction {
    /// Make it, in place of one that is there.
    Upsert,
    /// Remove it. It has to be given as it is.
    Delete,
}

/// A record set of a zone.
#[derive(Debug)]
pub struct RecordSet {
    pub name: String,
    pub record_type: String,
    pub ttl_secs: i64,
    pub values: Vec<String>,
}

/// The texts of a record set.
#[verifier::ext_equal]
pub struct RecordSetView {
    pub name: Seq<char>,
    pub record_type: Seq<char>,
    pub ttl_secs: i64,
    pub values: Seq<Seq<char>>,
}

impl View for RecordSet {
    type V = RecordSetView;

    open spec fn view(&self) -> RecordSetView {
        RecordSetView {
            name: self.name@,
            record_type: self.record_type@,
            ttl_secs: self.ttl_secs,
            values: strings(self.values@),
        }
    }
}

/// A change of one record set in a zone.
#[derive(Debug)]
pub struct DnsChange {
    pub hosted_zone_id: String,
    pub action: DnsAction,
    pub record_set: RecordSet,
}

/// The texts of a change.
#[verifier::ext_equal]
pub struct DnsChangeView {
    pub hosted_zone_id: Seq<char>,
    pub action: DnsAction,
    pub record_set: RecordSetView,
}

impl View for DnsChange {
    type V = DnsChangeView;

    open spec fn view(&self) -> DnsChangeView {
        DnsChangeView {
            hosted_zone_id: self.hosted_zone_id@,
            action: self.action,
            record_set: self.record_set@,
        }
    }
}

/// The address record of a domain name.
pub open spec fn address_record(fqdn: Seq<char>, ip: Seq<char>) -> RecordSetView {
    RecordSetView { name: fqdn, record_type: "A"@, ttl_secs: 300, values: seq![ip] }
}

fn address_record_set(fqdn: &str, ip: &str) -> (r: RecordSet)
    ensures
        r@ == address_record(fqdn@, ip@),
{
    let mut values: Vec<String> = Vec::new();
    values.push(ip.to_owned());
    let r = RecordSet {
        name: fqdn.to_owned(),
        record_type: "A".to_owned(),
        ttl_secs: 300,
        values,
    };
    assert(r@ =~= address_record(fqdn@, ip@));
    r
}

/// The change that makes the address record of an instance.
pub open spec fn upserted(zone: Seq<char>, fqdn: Seq<char>, ip: Seq<char>) -> DnsChangeView {
    DnsChangeView {
        hosted_zone_id: zone,
        action: DnsAction::Upsert,
        record_set: address_record(fqdn, ip),
    }
}

/// The change that makes the address record of an instance, where there is one already in its place.
pub fn upsert_dns_record(hosted_zone_id: &str, fqdn: &str, ip: &str) -> (r: DnsChange)
    ensures
        r@ == upserted(hosted_zone_id@, fqdn@, ip@),
{
    DnsChange {
        hosted_zone_id: hosted_zone_id.to_owned(),
        action: DnsAction::Upsert,
        record_set: address_record_set(fqdn, ip),
    }
}

/// The change that removes the address record of an instance.
pub open spec fn deleted(zone: Seq<char>, fqdn: Seq<char>, ip: Seq<char>) -> DnsChangeView {
    DnsChangeView {
        hosted_zone_id: zone,
        action: DnsAction::Delete,
        record_set: address_record(fqdn, ip),
    }
}

/// The change that removes the address record of an instance. Route 53 removes a record set only
/// where it is given as it was made.
pub fn delete_dns_record(hosted_zone_id: &str, fqdn: &str, ip: &str) -> (r: DnsChange)
    ensures
        r@ == deleted(hosted_zone_id@, fqdn@, ip@),
{
    DnsChange {
        hosted_zone_id: hosted_zone_id.to_owned(),
        action: DnsAction::Delete,
        record_set: address_record_set(fqdn, ip),
    }
}

/// What is removed is what was made: of one zone, domain name and address, the two changes go to that
/// zone and carry the same record set, field by field, the one to make it and the other to delete it.
pub proof fn deleting_removes_what_was_upserted(zone: Seq<char>, fqdn: Seq<char>, ip: Seq<char>)
    ensures
        ({
            let made = upserted(zone, fqdn, ip);
            let removed = deleted(zone, fqdn, ip);
            &&& made.action == DnsAction::Upsert
            &&& removed.action == DnsAction::Delete
            &&& made.hosted_zone_id == zone
            &&& removed.hosted_zone_id == zone
            &&& removed.record_set == made.record_set
            &&& removed.record_set.name == fqdn
            &&& removed.record_set.record_type == "A"@
            &&& removed.record_set.ttl_secs == 300
            &&& removed.record_set.values == seq![ip]
        }),
{
}

/// A new group opens SSH to the range, HTTPS and HTTP to all, and the host side of each usable mapping
/// to all, and nothing else.
pub proof fn group_opens_what_is_asked_for(ports: Seq<PortMapping>, ssh_cidr: Seq<char>)
    ensures
        ({
            let rules = rules_of(usable(ports), ssh_cidr);
            &&& rules.len() == usable(ports).len() + 3
            &&& rules.contains((22u16, ssh_cidr))
            &&& rules.contains((443u16, "0.0.0.0/0"@))
            &&& rules.contains((80u16, "0.0.0.0/0"@))
            &&& forall|i: int|
                0 <= i < usable(ports).len() ==> rules.contains(
                    ((#[trigger] usable(ports)[i]).host, "0.0.0.0/0"@),
                )
        }),
{
    let kept = usable(ports);
    let rules = rules_of(kept, ssh_cidr);
    assert(rules[0] == (22u16, ssh_cidr));
    assert(rules[1] == (443u16, "0.0.0.0/0"@));
    assert(rules[2] == (80u16, "0.0.0.0/0"@));
    assert forall|i: int| 0 <= i < kept.len() implies rules.contains(
        ((#[trigger] kept[i]).host, "0.0.0.0/0"@),
    ) by {
        assert(rules[i + 3] == (kept[i].host, "0.0.0.0/0"@));
    }
}

} // verus!
