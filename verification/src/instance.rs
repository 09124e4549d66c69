//! The manifest of provisioned instances.

use vstd::prelude::*;

use crate::text;
use crate::text::{joined, strings};

verus! {

/// A provisioned instance, as the manifest records it.
#[derive(Debug)]
pub struct Instance {
    pub instance_id: String,
    pub name: String,
    pub public_ip: String,
    pub fqdn: String,
    pub security_group_id: String,
    pub hosted_zone_id: String,
    pub region: String,
    pub created_at: String,
    /// The chart repository that Rancher was installed from. Older records have none.
    pub rancher_repo: Option<String>,
    pub protected: bool,
}

impl Clone for Instance {
    fn clone(&self) -> (r: Instance)
        ensures
            r == *self,
    {
        Instance {
            instance_id: self.instance_id.clone(),
            name: self.name.clone(),
            public_ip: self.public_ip.clone(),
            fqdn: self.fqdn.clone(),
            security_group_id: self.security_group_id.clone(),
            hosted_zone_id: self.hosted_zone_id.clone(),
            region: self.region.clone(),
            created_at: self.created_at.clone(),
            rancher_repo: match &self.rancher_repo {
                Some(repo) => Some(repo.clone()),
                None => None,
            },
            protected: self.protected,
        }
    }
}

/// The first instance of a name.
pub open spec fn named(instances: Seq<Instance>, name: Seq<char>) -> Option<Instance>
    decreases instances.len(),
{
    if instances.len() == 0 {
        None
    } else if instances[0].name@ == name {
        Some(instances[0])
    } else {
        named(instances.drop_first(), name)
    }
}

/// The names in the manifest.
pub open spec fn names(instances: Seq<Instance>) -> Seq<Seq<char>> {
    Seq::new(instances.len(), |i: int| instances[i].name@)
}

/// The complaint about a name that the manifest does not record.
pub open spec fn unknown_name(
    instances: Seq<Instance>,
    name: Seq<char>,
    manifest: Seq<char>,
) -> Seq<char> {
    "No instance named `"@ + name + "` in "@ + manifest + ". Known instances: "@ + if instances.len()
        == 0 {
        "<none>"@
    } else {
        joined(names(instances), ", "@)
    }
}

/// The first instance of a name, or a complaint that tells the names in the manifest.
pub fn find_instance<'a>(instances: &'a [Instance], name: &str, manifest: &str) -> (r: Result<
    &'a Instance,
    String,
>)
    ensures
        match r {
            Ok(instance) => named(instances@, name@) == Some(*instance),
            Err(e) => named(instances@, name@) is None && e@ == unknown_name(
                instances@,
                name@,
                manifest@,
            ),
        },
{
    let mut known: Vec<String> = Vec::new();
    let mut i: usize = 0;
    assert(instances@.skip(0) =~= instances@);
    assert(strings(known@) =~= names(instances@.take(0)));
    while i < instances.len()
        invariant
            i <= instances.len(),
            named(instances@.skip(i as int), name@) == named(instances@, name@),
            strings(known@) == names(instances@.take(i as int)),
        decreases instances.len() - i,
    {
        let instance = &instances[i];
        let ghost before = known@;
        assert(instances@.skip(i as int)[0] == *instance);
        assert(instances@.skip(i as int).drop_first() =~= instances@.skip(i + 1));
        if text::same(instance.name.as_str(), name) {
            return Ok(instance);
        }
        let other = instance.name.clone();
        let ghost shown = other;
        known.push(other);
        proof {
            text::lemma_strings_push(before, shown);
            assert(names(instances@.take(i + 1)) =~= names(instances@.take(i as int)).push(
                shown@,
            ));
        }
        i += 1;
    }
    assert(instances@.take(i as int) =~= instances@);
    let mut e = "No instance named `".to_owned();
    e.append(name);
    e.append("` in ");
    e.append(manifest);
    e.append(". Known instances: ");
    if instances.len() == 0 {
        e.append("<none>");
    } else {
        e.append(text::join(&known, ", ").as_str());
    }
    Err(e)
}

/// The line on an instance.
pub open spec fn line_of(instance: Instance) -> Seq<char> {
    instance.instance_id@ + "  "@ + instance.name@ + "  "@ + instance.public_ip@ + "  "@
        + instance.fqdn@ + "\n"@
}

/// The lines on a list of instances.
pub open spec fn listing_of(instances: Seq<Instance>) -> Seq<char>
    decreases instances.len(),
{
    if instances.len() == 0 {
        Seq::empty()
    } else {
        listing_of(instances.drop_last()) + line_of(instances.last())
    }
}

/// The manifest as it is listed: identity, name, address and domain name, one instance a line.
pub fn list(instances: &[Instance]) -> (r: String)
    ensures
        r@ == listing_of(instances@),
{
    let mut out = String::new();
    let mut i: usize = 0;
    while i < instances.len()
        invariant
            i <= instances.len(),
            out@ == listing_of(instances@.take(i as int)),
        decreases instances.len() - i,
    {
        let instance = &instances[i];
        let mut line = instance.instance_id.clone();
        line.append("  ");
        line.append(instance.name.as_str());
        line.append("  ");
        line.append(instance.public_ip.as_str());
        line.append("  ");
        line.append(instance.fqdn.as_str());
        line.append("\n");
        out.append(line.as_str());
        assert(instances@.take(i + 1).drop_last() =~= instances@.take(i as int));
        i += 1;
    }
    assert(instances@.take(i as int) =~= instances@);
    out
}

/// Whether the manifest protects an instance.
pub open spec fn is_protected(instances: Seq<Instance>, id: Seq<char>) -> bool {
    exists|i: int|
        0 <= i < instances.len() && (#[trigger] instances[i]).instance_id@ == id
            && instances[i].protected
}

/// Refuses to terminate an instance that the manifest protects, unless it is forced.
pub fn allow_termination(instances: &[Instance], id: &str, force: bool) -> (r: Result<(), String>)
    ensures
        match r {
            Ok(_) => force || !is_protected(instances@, id@),
            Err(e) => !force && is_protected(instances@, id@) && e@ == "Instance "@ + id@
                + " is protected; pass --force to terminate it"@,
        },
{
    if force {
        return Ok(());
    }
    let mut i: usize = 0;
    while i < instances.len()
        invariant
            i <= instances.len(),
            !force,
            forall|j: int|
                0 <= j < i ==> !((#[trigger] instances@[j]).instance_id@ == id@
                    && instances@[j].protected),
        decreases instances.len() - i,
    {
        if instances[i].protected && text::same(instances[i].instance_id.as_str(), id) {
            assert(instances@[i as int].instance_id@ == id@);
            let mut e = "Instance ".to_owned();
            e.append(id);
            e.append(" is protected; pass --force to terminate it");
            return Err(e);
        }
        i += 1;
    }
    Ok(())
}

/// The records of all instances but one.
pub open spec fn without(instances: Seq<Instance>, id: Seq<char>) -> Seq<Instance>
    decreases instances.len(),
{
    if instances.len() == 0 {
        Seq::empty()
    } else {
        let front = without(instances.drop_last(), id);
        if instances.last().instance_id@ == id {
            front
        } else {
            front.push(instances.last())
        }
    }
}

/// Records an instance, behind those that are recorded.
pub fn record_instance(instances: &mut Vec<Instance>, instance: Instance)
    ensures
        final(instances)@ == old(instances)@.push(instance),
{
    instances.push(instance);
}

/// Strikes an instance from the manifest. The others stay, in their order.
pub fn strike_instance(instances: &[Instance], id: &str) -> (r: Vec<Instance>)
    ensures
        r@ == without(instances@, id@),
{
    let mut r: Vec<Instance> = Vec::new();
    let mut i: usize = 0;
    while i < instances.len()
        invariant
            i <= instances.len(),
            r@ == without(instances@.take(i as int), id@),
        decreases instances.len() - i,
    {
        assert(instances@.take(i + 1).drop_last() =~= instances@.take(i as int));
        assert(instances@.take(i + 1).last() == instances@[i as int]);
        if !text::same(instances[i].instance_id.as_str(), id) {
            r.push(instances[i].clone());
        }
        i += 1;
    }
    assert(instances@.take(i as int) =~= instances@);
    r
}

proof fn lemma_without_absent(instances: Seq<Instance>, id: Seq<char>)
    requires
        forall|i: int| 0 <= i < instances.len() ==> (#[trigger] instances[i]).instance_id@ != id,
    ensures
        without(instances, id) == instances,
    decreases instances.len(),
{
    if instances.len() > 0 {
        let front = instances.drop_last();
        assert forall|i: int| 0 <= i < front.len() implies (#[trigger] front[i]).instance_id@
            != id by {
            assert(front[i] == instances[i]);
        }
        lemma_without_absent(front, id);
        assert(instances[instances.len() - 1].instance_id@ != id);
        assert(front.push(instances.last()) =~= instances);
    }
}

/// Striking an instance undoes recording it.
pub proof fn striking_undoes_recording(instances: Seq<Instance>, instance: Instance)
    requires
        forall|i: int|
            0 <= i < instances.len() ==> (#[trigger] instances[i]).instance_id@
                != instance.instance_id@,
    ensures
        without(instances.push(instance), instance.instance_id@) == instances,
{
    assert(instances.push(instance).drop_last() =~= instances);
    lemma_without_absent(instances, instance.instance_id@);
}

/// A struck instance is recorded no more, and every other one still is.
pub proof fn struck_instance_is_gone(instances: Seq<Instance>, id: Seq<char>)
    ensures
        forall|i: int|
            0 <= i < without(instances, id).len() ==> (#[trigger] without(
                instances,
                id,
            )[i]).instance_id@ != id,
        forall|instance: Instance| #[trigger]
            instances.contains(instance) && instance.instance_id@ != id ==> without(
                instances,
                id,
            ).contains(instance),
    decreases instances.len(),
{
    if instances.len() > 0 {
        let front = instances.drop_last();
        struck_instance_is_gone(front, id);
        let left = without(front, id);
        assert forall|instance: Instance| #[trigger]
            instances.contains(instance) && instance.instance_id@ != id implies without(
            instances,
            id,
        ).contains(instance) by {
            let i = choose|i: int| 0 <= i < instances.len() && instances[i] == instance;
            if i < front.len() {
                assert(front[i] == instance);
                assert(front.contains(instance));
                let k = choose|k: int| 0 <= k < left.len() && left[k] == instance;
                assert(without(instances, id)[k] == instance);
            } else {
                assert(without(instances, id)[left.len() as int] == instance);
            }
        }
    }
}

/// An instance that was recorded as protected is refused without force, whatever else the manifest
/// records.
pub proof fn recorded_protection_holds(
    before: Seq<Instance>,
    instance: Instance,
    after: Seq<Instance>,
)
    requires
        instance.protected,
    ensures
        is_protected(before.push(instance) + after, instance.instance_id@),
{
    let all = before.push(instance) + after;
    assert(all[before.len() as int] == instance);
}

/// An instance is found by its name: the first that has it; none where no instance has it.
pub proof fn instances_are_found_by_name(instances: Seq<Instance>, name: Seq<char>, k: int)
    ensures
        (0 <= k < instances.len() && instances[k].name@ == name && forall|j: int|
            0 <= j < k ==> (#[trigger] instances[j]).name@ != name) ==> named(instances, name)
            == Some(instances[k]),
        (forall|j: int| 0 <= j < instances.len() ==> (#[trigger] instances[j]).name@ != name)
            ==> named(instances, name) is None,
    decreases instances.len(),
{
    if instances.len() > 0 {
        let rest = instances.drop_first();
        instances_are_found_by_name(rest, name, k - 1);
        assert(forall|j: int| 0 <= j < rest.len() ==> #[trigger] rest[j] == instances[j + 1]);
        if k > 0 && k < instances.len() {
            assert(rest[k - 1] == instances[k]);
        }
    }
}

/// Only its own record protects an instance: where no record of it is protected, neither is it.
pub proof fn only_its_own_record_protects(instances: Seq<Instance>, id: Seq<char>)
    requires
        forall|i: int|
            0 <= i < instances.len() && (#[trigger] instances[i]).protected
                ==> instances[i].instance_id@ != id,
    ensures
        !is_protected(instances, id),
{
}

/// Striking keeps the others in their order, and strikes nothing else: what is left before and behind
/// any point is what is left of what stood before and behind it.
pub proof fn striking_keeps_the_order(a: Seq<Instance>, b: Seq<Instance>, id: Seq<char>)
    ensures
        without(a + b, id) == without(a, id) + without(b, id),
    decreases b.len(),
{
    if b.len() == 0 {
        assert(a + b =~= a);
        assert(without(a, id) + without(b, id) =~= without(a, id));
    } else {
        striking_keeps_the_order(a, b.drop_last(), id);
        assert((a + b).drop_last() =~= a + b.drop_last());
        assert((a + b).last() == b.last());
        assert(without(a + b, id) =~= without(a, id) + without(b, id));
    }
}

/// The listing has a line for each instance, in their order, with its identity, name, address and domain
/// name, two blanks between each.
pub proof fn every_instance_is_listed(instance: Instance, rest: Seq<Instance>)
    ensures
        listing_of(Seq::empty()).len() == 0,
        listing_of(seq![instance] + rest) == instance.instance_id@ + "  "@ + instance.name@ + "  "@
            + instance.public_ip@ + "  "@ + instance.fqdn@ + "\n"@ + listing_of(rest),
    decreases rest.len(),
{
    let all = seq![instance] + rest;
    let line = line_of(instance);
    if rest.len() == 0 {
        reveal_with_fuel(listing_of, 2);
        assert(all.last() == instance);
        assert(listing_of(all) =~= line + listing_of(rest));
    } else {
        every_instance_is_listed(instance, rest.drop_last());
        assert(all.drop_last() =~= seq![instance] + rest.drop_last());
        assert(all.last() == rest.last());
        assert(listing_of(all) =~= line + listing_of(rest));
    }
}

/// The complaint about an unknown name tells the name, the manifest and every name in it, in their
/// order, or that there are none.
pub proof fn complaint_tells_every_name(
    instances: &[Instance],
    name: &str,
    manifest: &str,
    e: String,
)
    requires
        call_ensures(find_instance, (instances, name, manifest), Err(e)),
    ensures
        e@ == "No instance named `"@ + name@ + "` in "@ + manifest@ + ". Known instances: "@
            + if instances@.len() == 0 {
            "<none>"@
        } else {
            joined(Seq::new(instances@.len(), |i: int| instances@[i].name@), ", "@)
        },
{
}

} // verus!
