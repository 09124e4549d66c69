//! Terminating an instance: what is found out about it, and what is cleaned up after it.

use vstd::prelude::*;

use crate::instance;
use crate::instance::{is_protected, Instance};
use crate::network;
use crate::network::{deleted, domain_of, group_of, upserted, DnsChange, DnsChangeView};
use crate::text;
use crate::text::{opt, or_empty};

verus! {

/// What termination is asked for with.
#[derive(Debug)]
pub struct TerminateArgs {
    pub instance_id: String,
    pub hosted_zone_id: String,
    pub vpc_id: String,
    /// Terminate the instance though it is protected.
    pub force: bool,
}

/// A tag of an instance, as EC2 describes it.
#[derive(Debug)]
pub struct InstanceTag {
    pub key: Option<String>,
    pub value: Option<String>,
}

/// An instance, as EC2 describes it.
#[derive(Debug)]
pub struct DescribedInstance {
    pub tags: Vec<InstanceTag>,
    pub public_ip: Option<String>,
}

/// The texts of a list of tags.
pub open spec fn tag_views(tags: Seq<InstanceTag>) -> Seq<(Option<Seq<char>>, Option<Seq<char>>)> {
    Seq::new(tags.len(), |i: int| (opt(tags[i].key), opt(tags[i].value)))
}

/// The value of the first tag `Name`.
pub open spec fn name_tag(tags: Seq<(Option<Seq<char>>, Option<Seq<char>>)>) -> Seq<char>
    decreases tags.len(),
{
    if tags.len() == 0 {
        Seq::empty()
    } else if tags[0].0 == Some("Name"@) {
        or_empty(tags[0].1)
    } else {
        name_tag(tags.drop_first())
    }
}

fn find_name(tags: &Vec<InstanceTag>) -> (r: String)
    ensures
        r@ == name_tag(tag_views(tags@)),
{
    let ghost all = tag_views(tags@);
    let mut i: usize = 0;
    assert(all.skip(0) =~= all);
    while i < tags.len()
        invariant
            i <= tags.len(),
            all == tag_views(tags@),
            name_tag(all.skip(i as int)) == name_tag(all),
        decreases tags.len() - i,
    {
        let tag = &tags[i];
        assert(all.skip(i as int)[0] == (opt(tag.key), opt(tag.value)));
        assert(all.skip(i as int).drop_first() =~= all.skip(i + 1));
        let found = match &tag.key {
            Some(key) => text::same(key.as_str(), "Name"),
            None => false,
        };
        if found {
            return match &tag.value {
                Some(value) => value.clone(),
                None => String::new(),
            };
        }
        i += 1;
    }
    String::new()
}

/// The name and the public address of an instance, each empty where it has none.
pub fn instance_details(described: &Option<DescribedInstance>, instance_id: &str) -> (r: Result<
    (String, String),
    String,
>)
    ensures
        match (*described, r) {
            (Some(instance), Ok((name, ip))) => name@ == name_tag(tag_views(instance.tags@)) && ip@
                == or_empty(opt(instance.public_ip)),
            (None, Err(e)) => e@ == "Instance "@ + instance_id@ + " not found"@,
            _ => false,
        },
{
    match described {
        Some(instance) => {
            let ip = match &instance.public_ip {
                Some(ip) => ip.clone(),
                None => String::new(),
            };
            Ok((find_name(&instance.tags), ip))
        },
        None => {
            let mut e = "Instance ".to_owned();
            e.append(instance_id);
            e.append(" not found");
            Err(e)
        },
    }
}

/// What is left of an instance when it is terminated.
#[derive(Debug)]
pub struct Cleanup {
    /// The change that removes the address record.
    pub record: Option<DnsChange>,
    /// The name of the security group.
    pub group: Option<String>,
}

/// The texts of a change, where there is one.
pub open spec fn change_view(change: Option<DnsChange>) -> Option<DnsChangeView> {
    match change {
        Some(change) => Some(change@),
        None => None,
    }
}

/// The change that removes the address record. Without a name and an address there is none to tell.
pub open spec fn record_left(zone: Seq<char>, name: Seq<char>, ip: Seq<char>) -> Option<
    DnsChangeView,
> {
    if name.len() > 0 && ip.len() > 0 {
        Some(deleted(zone, domain_of(name), ip))
    } else {
        None
    }
}

/// The security group to remove. Without a name there is none to tell.
pub open spec fn group_left(name: Seq<char>) -> Option<Seq<char>> {
    if name.len() > 0 {
        Some(group_of(name))
    } else {
        None
    }
}

/// What to clean up after an instance of that name and address, its record in a zone.
pub fn cleanup(hosted_zone_id: &str, name: &str, ip: &str) -> (r: Cleanup)
    ensures
        change_view(r.record) == record_left(hosted_zone_id@, name@, ip@),
        opt(r.group) == group_left(name@),
{
    let named = !name.is_empty();
    Cleanup {
        record: if named && !ip.is_empty() {
            Some(network::delete_dns_record(hosted_zone_id, network::fqdn(name).as_str(), ip))
        } else {
            None
        },
        group: if named {
            Some(network::security_group_name(name))
        } else {
            None
        },
    }
}

/// The name and the address of an instance, as far as they could be found out.
pub open spec fn details_of(described: Result<Option<DescribedInstance>, String>) -> (
    Seq<char>,
    Seq<char>,
) {
    match described {
        Ok(Some(instance)) => (
            name_tag(tag_views(instance.tags@)),
            or_empty(opt(instance.public_ip)),
        ),
        _ => (Seq::empty(), Seq::empty()),
    }
}

/// Decides on the termination of an instance, by the manifest and by what EC2 told of it, and works
/// out what to clean up. A protected instance is refused unless termination is forced. Where nothing
/// could be found out about the instance, nothing is cleaned up.
pub fn terminate(
    args: &TerminateArgs,
    instances: &[Instance],
    described: &Result<Option<DescribedInstance>, String>,
) -> (r: Result<Cleanup, String>)
    ensures
        match r {
            Ok(left) => {
                &&& args.force || !is_protected(instances@, args.instance_id@)
                &&& change_view(left.record) == record_left(
                    args.hosted_zone_id@,
                    details_of(*described).0,
                    details_of(*described).1,
                )
                &&& opt(left.group) == group_left(details_of(*described).0)
            },
            Err(e) => {
                &&& !args.force && is_protected(instances@, args.instance_id@)
                &&& e@ == "Instance "@ + args.instance_id@
                    + " is protected; pass --force to terminate it"@
            },
        },
{
    match instance::allow_termination(instances, args.instance_id.as_str(), args.force) {
        Err(e) => Err(e),
        Ok(_) => {
            let (name, ip) = match described {
                Ok(found) => match instance_details(found, args.instance_id.as_str()) {
                    Ok(details) => details,
                    Err(_) => (String::new(), String::new()),
                },
                Err(_) => (String::new(), String::new()),
            };
            Ok(cleanup(args.hosted_zone_id.as_str(), name.as_str(), ip.as_str()))
        },
    }
}

/// The security group to delete: the first that was found, where its identity is known.
pub open spec fn first_group(ids: Seq<Option<String>>) -> Option<Seq<char>> {
    if ids.len() == 0 {
        None
    } else {
        opt(ids[0])
    }
}

pub fn group_to_delete(ids: &[Option<String>]) -> (r: Option<String>)
    ensures
        opt(r) == first_group(ids@),
{
    if ids.len() == 0 {
        return None;
    }
    match &ids[0] {
        Some(id) => Some(id.clone()),
        None => None,
    }
}

/// What is cleaned up after a named instance with an address is what provisioning made for it: the
/// record set of its domain name, as it was made, and the group that carries its name.
pub proof fn cleanup_covers_what_was_made(zone: Seq<char>, name: Seq<char>, ip: Seq<char>)
    requires
        name.len() > 0,
        ip.len() > 0,
    ensures
        record_left(zone, name, ip) == Some(deleted(zone, domain_of(name), ip)),
        record_left(zone, name, ip)->0.hosted_zone_id == upserted(
            zone,
            domain_of(name),
            ip,
        ).hosted_zone_id,
        record_left(zone, name, ip)->0.record_set == upserted(zone, domain_of(name), ip).record_set,
        group_left(name) == Some(group_of(name)),
{
}

/// The name of an instance is the value of its first tag with the key `Name`, wherever in the list it
/// stands; without such a tag there is none.
pub proof fn name_is_that_of_the_name_tag(
    tags: Seq<(Option<Seq<char>>, Option<Seq<char>>)>,
    k: int,
)
    ensures
        (0 <= k < tags.len() && tags[k].0 == Some("Name"@) && forall|j: int|
            0 <= j < k ==> (#[trigger] tags[j]).0 != Some("Name"@)) ==> match tags[k].1 {
            Some(value) => name_tag(tags) == value,
            None => name_tag(tags).len() == 0,
        },
        (forall|j: int| 0 <= j < tags.len() ==> (#[trigger] tags[j]).0 != Some("Name"@))
            ==> name_tag(tags).len() == 0,
    decreases tags.len(),
{
    if tags.len() > 0 {
        let rest = tags.drop_first();
        name_is_that_of_the_name_tag(rest, k - 1);
        assert(forall|j: int| 0 <= j < rest.len() ==> #[trigger] rest[j] == tags[j + 1]);
        if k > 0 && k < tags.len() {
            assert(rest[k - 1] == tags[k]);
        }
    }
}

/// An instance that EC2 describes with one tag `Name`, at any place among its tags, and with an
/// address, leaves behind what was made under that name: the address record of `<name>.ui.rancher.space`
/// and the group `roa-<name>`.
pub proof fn cleanup_goes_by_the_name_tag(
    instance: DescribedInstance,
    k: int,
    name: Seq<char>,
    ip: Seq<char>,
    zone: Seq<char>,
)
    requires
        0 <= k < instance.tags@.len(),
        opt(instance.tags@[k].key) == Some("Name"@),
        opt(instance.tags@[k].value) == Some(name),
        forall|j: int|
            0 <= j < instance.tags@.len() && j != k ==> opt((#[trigger] instance.tags@[j]).key)
                != Some("Name"@),
        opt(instance.public_ip) == Some(ip),
        name.len() > 0,
        ip.len() > 0,
    ensures
        details_of(Ok(Some(instance))) == (name, ip),
        ({
            let (found, address) = details_of(Ok(Some(instance)));
            &&& group_left(found) == Some("roa-"@ + name)
            &&& record_left(zone, found, address) matches Some(change)
            &&& change.hosted_zone_id == zone
            &&& change.action == network::DnsAction::Delete
            &&& change.record_set.name == name + ".ui.rancher.space"@
            &&& change.record_set.record_type == "A"@
            &&& change.record_set.ttl_secs == 300
            &&& change.record_set.values == seq![ip]
        }),
{
    let tags = tag_views(instance.tags@);
    assert forall|j: int| 0 <= j < k implies (#[trigger] tags[j]).0 != Some("Name"@) by {
        assert(tags[j].0 == opt(instance.tags@[j].key));
    }
    name_is_that_of_the_name_tag(tags, k);
}

/// Where nothing was found out about an instance, or it has no name, nothing is cleaned up; without an
/// address there is no record to remove.
pub proof fn nothing_unknown_is_cleaned_up(zone: Seq<char>, name: Seq<char>, ip: Seq<char>, e: String)
    ensures
        details_of(Ok(None)).0.len() == 0,
        details_of(Err(e)).0.len() == 0,
        name.len() == 0 ==> record_left(zone, name, ip) is None && group_left(name) is None,
        ip.len() == 0 ==> record_left(zone, name, ip) is None,
{
}

/// A protected instance is terminated only by force, and one that no record protects is never refused.
/// What is then cleaned up is what was made under the name and the address that EC2 tells.
pub proof fn protected_instance_needs_force(
    args: &TerminateArgs,
    instances: &[Instance],
    described: &Result<Option<DescribedInstance>, String>,
    r: Result<Cleanup, String>,
    k: int,
)
    requires
        call_ensures(terminate, (args, instances, described), r),
        0 <= k < instances@.len(),
        instances@[k].instance_id@ == args.instance_id@,
        forall|j: int|
            0 <= j < instances@.len() && j != k ==> (#[trigger] instances@[j]).instance_id@
                != args.instance_id@,
    ensures
        r is Err <==> instances@[k].protected && !args.force,
        r is Ok && *described is Err ==> r->Ok_0.record is None && r->Ok_0.group is None,
        r is Ok && r->Ok_0.record is Some ==> r->Ok_0.record->0@.hosted_zone_id
            == args.hosted_zone_id@,
{
}

/// Of the groups that were found, the first is deleted, and none where it has no identity.
pub proof fn first_group_is_deleted(ids: &[Option<String>], r: Option<String>)
    requires
        call_ensures(group_to_delete, (ids,), r),
    ensures
        ids@.len() == 0 ==> r is None,
        ids@.len() > 0 ==> opt(r) == opt(ids@[0]),
{
}

} // verus!
