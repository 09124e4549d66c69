//! Provisioning an instance: all that is decided before and between the calls to AWS.

use base64::Engine;
use vstd::prelude::*;

use crate::clock::{utc_shown, UtcTime};
use crate::instance::{is_protected, Instance};
use crate::network;
use crate::network::{domain_of, group_of, rule_views, rules_of, IngressRule};
use crate::number::{decimal, is_digit, is_numeral};
use crate::ports;
use crate::ports::{usable, PortMapping};
use crate::repo::{url_of, RancherRepo};
use crate::substitution::{filled, lemma_cannot_occur};
use crate::terminate;
use crate::terminate::{details_of, group_left, record_left, DescribedInstance};
use crate::text;
use crate::text::{free_of, occurs_in, opt, opt_str, or_empty, strings, trimmed};
use crate::user_data;
use crate::user_data::{
    docker_fills, docker_text, hardened, helm_fills, helm_text, holds_no_placeholder, holds_no_plan,
    plan_of, standing, HelmValues, HelmValuesView, SSHD_HARDENING,
};
use crate::versions;
use crate::versions::{certified_k3s, channel_of, rancher_minor};

verus! {

/// How Rancher is installed.
#[derive(Debug, Clone, Copy)]
pub enum ProvisionMode {
    /// By Helm, on k3s.
    Helm,
    /// As a Docker container.
    Docker,
}

/// What provisioning is asked for with.
#[derive(Debug)]
pub struct ProvisionArgs {
    /// The name of the instance, which is also its subdomain.
    pub name: String,
    pub mode: ProvisionMode,
    /// The size of the root volume.
    pub storage_gb: i32,
    pub vpc_id: String,
    pub subnet_id: String,
    pub key_name: String,
    /// An existing security group to use in place of a new one.
    pub security_group_id: Option<String>,
    pub hosted_zone_id: String,
    /// The address that certificates are issued for.
    pub email: String,
    pub rancher_repo: RancherRepo,
    /// Whether termination is refused unless it is forced.
    pub protect: bool,
    /// The range that may reach SSH.
    pub ssh_cidr: String,
    /// An existing IAM instance profile to attach.
    pub ssm_profile: Option<String>,
    pub rancher_version: Option<String>,
    pub docker_registry: String,
    /// Extra ports to open, and to publish in Docker mode.
    pub ports: Vec<PortMapping>,
    pub rancher_hostname: Option<String>,
    pub rancher_bootstrap_password: Option<String>,
    pub k3s_version: Option<String>,
    pub ami_id: String,
    pub wait_for_ready: bool,
}

/// The k3s version to install: the one that is asked for, else the one that is certified for the
/// Rancher version.
pub open spec fn pinned_k3s(
    asked: Option<Seq<char>>,
    rancher_version: Option<Seq<char>>,
) -> Option<Seq<char>> {
    match (asked, rancher_version) {
        (Some(version), _) => Some(version),
        (None, Some(rancher)) => certified_k3s(rancher_minor(rancher)),
        (None, None) => None,
    }
}

/// The k3s version to install, where one is pinned.
pub fn k3s_version(args: &ProvisionArgs) -> (r: Option<String>)
    ensures
        opt(r) == pinned_k3s(opt(args.k3s_version), opt(args.rancher_version)),
{
    match (&args.k3s_version, &args.rancher_version) {
        (Some(version), _) => Some(version.clone()),
        (None, Some(rancher)) => match versions::default_k3s_version(rancher.as_str()) {
            Some(version) => Some(version.to_owned()),
            None => None,
        },
        (None, None) => None,
    }
}

/// The shell for the upgrade Plan. There is none without a channel to track.
pub open spec fn plan_text(channel: Option<Seq<char>>) -> Seq<char> {
    match channel {
        Some(channel) => plan_of(channel),
        None => Seq::empty(),
    }
}

/// The flag that picks the version of the Rancher chart.
pub open spec fn version_flag(rancher_version: Option<Seq<char>>) -> Seq<char> {
    match rancher_version {
        Some(version) => "--version "@ + version,
        None => "--devel"@,
    }
}

/// The flag that sets the bootstrap password.
pub open spec fn password_flag(password: Option<Seq<char>>) -> Seq<char> {
    match password {
        Some(password) => "--set bootstrapPassword=\""@ + password + "\""@,
        None => Seq::empty(),
    }
}

/// The channel that the k3s version of an instance belongs to.
pub open spec fn channel_for(args: ProvisionArgs) -> Option<Seq<char>> {
    channel_of(or_empty(pinned_k3s(opt(args.k3s_version), opt(args.rancher_version))))
}

/// What goes into the script of Helm mode.
pub open spec fn values_of(args: ProvisionArgs) -> HelmValuesView {
    HelmValuesView {
        hostname: match args.rancher_hostname {
            Some(hostname) => hostname@,
            None => domain_of(args.name@),
        },
        email: args.email@,
        repo: url_of(args.rancher_repo@),
        version_flag: version_flag(opt(args.rancher_version)),
        password_flag: password_flag(opt(args.rancher_bootstrap_password)),
        k3s_version: or_empty(pinned_k3s(opt(args.k3s_version), opt(args.rancher_version))),
        plan: plan_text(channel_for(args)),
    }
}

/// The tag of the image that Docker mode runs.
pub open spec fn image_tag(rancher_version: Option<Seq<char>>) -> Seq<char> {
    match rancher_version {
        Some(version) => version,
        None => "head"@,
    }
}

/// The script that the instance runs when it first boots.
pub open spec fn script_of(args: ProvisionArgs) -> Seq<char> {
    hardened(
        match args.mode {
            ProvisionMode::Helm => filled(helm_text(), helm_fills(values_of(args))),
            ProvisionMode::Docker => filled(
                docker_text(),
                docker_fills(
                    args.docker_registry@,
                    image_tag(opt(args.rancher_version)),
                    args.ports@,
                ),
            ),
        },
    )
}

/// What is said on the k3s version and the upgrade Plan.
pub open spec fn notices_of(k3s: Option<Seq<char>>, channel: Option<Seq<char>>) -> Seq<Seq<char>> {
    seq![
        match k3s {
            Some(version) => "Using k3s version: "@ + version,
            None =>
            "No k3s version pinned; the k3s installer will use the latest stable release"@,
        },
        match channel {
            Some(channel) => "Pinning the k3s upgrade Plan to channel: "@ + channel,
            None => "No k3s minor to pin; writing no k3s upgrade Plan"@,
        },
    ]
}

fn notices(k3s: &Option<String>, channel: &Option<String>) -> (r: Vec<String>)
    ensures
        strings(r@) == notices_of(opt(*k3s), opt(*channel)),
{
    let first = match k3s {
        Some(version) => {
            let mut s = "Using k3s version: ".to_owned();
            s.append(version.as_str());
            s
        },
        None => "No k3s version pinned; the k3s installer will use the latest stable release".to_owned(),
    };
    let second = match channel {
        Some(channel) => {
            let mut s = "Pinning the k3s upgrade Plan to channel: ".to_owned();
            s.append(channel.as_str());
            s
        },
        None => "No k3s minor to pin; writing no k3s upgrade Plan".to_owned(),
    };
    let mut r: Vec<String> = Vec::new();
    r.push(first);
    r.push(second);
    assert(strings(r@) =~= notices_of(opt(*k3s), opt(*channel)));
    r
}

/// The text that `base64` makes of another, by the standard alphabet and with padding.
pub uninterp spec fn base64_of(plain: Seq<char>) -> Seq<char>;

/// `base64::Engine::encode` of `base64::engine::general_purpose::STANDARD`, on the UTF-8 bytes of a
/// text. What it gives depends on the text alone.
#[verifier::external_body]
fn encode_base64(plain: &str) -> (r: String)
    ensures
        r@ == base64_of(plain@),
{
    base64::engine::general_purpose::STANDARD.encode(plain)
}

fn or_nothing(text: &Option<String>) -> (r: String)
    ensures
        r@ == or_empty(opt(*text)),
{
    match text {
        Some(text) => text.clone(),
        None => String::new(),
    }
}

fn helm_values(
    args: &ProvisionArgs,
    k3s: &Option<String>,
    channel: &Option<String>,
) -> (v: HelmValues)
    requires
        opt(*k3s) == pinned_k3s(opt(args.k3s_version), opt(args.rancher_version)),
        opt(*channel) == channel_for(*args),
    ensures
        v@ == values_of(*args),
{
    HelmValues {
        hostname: match &args.rancher_hostname {
            Some(hostname) => hostname.clone(),
            None => network::fqdn(args.name.as_str()),
        },
        email: args.email.clone(),
        repo: args.rancher_repo.value(),
        version_flag: match &args.rancher_version {
            Some(version) => {
                let mut flag = "--version ".to_owned();
                flag.append(version.as_str());
                flag
            },
            None => "--devel".to_owned(),
        },
        password_flag: match &args.rancher_bootstrap_password {
            Some(password) => {
                let mut flag = "--set bootstrapPassword=\"".to_owned();
                flag.append(password.as_str());
                flag.append("\"");
                flag
            },
            None => String::new(),
        },
        k3s_version: or_nothing(k3s),
        plan: match channel {
            Some(channel) => user_data::k3s_upgrade_plan(channel.as_str()),
            None => String::new(),
        },
    }
}

/// What is worked out before anything is launched.
#[derive(Debug)]
pub struct Provisioning {
    /// The domain name of the instance.
    pub fqdn: String,
    /// The chart repository that Rancher is installed from.
    pub rancher_repo: String,
    /// The script that the instance runs when it first boots.
    pub script: String,
    /// The same, encoded as EC2 takes it.
    pub user_data: String,
    /// What to say on the way.
    pub notices: Vec<String>,
}

/// Works out what an instance is called, where its charts come from and what it runs when it first
/// boots.
pub fn provision(args: &ProvisionArgs) -> (p: Provisioning)
    ensures
        p.fqdn@ == domain_of(args.name@),
        p.rancher_repo@ == url_of(args.rancher_repo@),
        p.script@ == script_of(*args),
        p.user_data@ == base64_of(script_of(*args)),
        strings(p.notices@) == notices_of(
            pinned_k3s(opt(args.k3s_version), opt(args.rancher_version)),
            channel_for(*args),
        ),
{
    let k3s = k3s_version(args);
    let version = or_nothing(&k3s);
    let channel = versions::k3s_minor_channel(version.as_str());
    let rendered = match args.mode {
        ProvisionMode::Helm => {
            let values = helm_values(args, &k3s, &channel);
            user_data::render_helm_user_data(&values)
        },
        ProvisionMode::Docker => {
            let tag = match &args.rancher_version {
                Some(version) => version.clone(),
                None => "head".to_owned(),
            };
            user_data::render_docker_user_data(
                args.docker_registry.as_str(),
                tag.as_str(),
                args.ports.as_slice(),
            )
        },
    };
    let script = user_data::render_sshd_hardening(rendered.as_str());
    Provisioning {
        fqdn: network::fqdn(args.name.as_str()),
        rancher_repo: args.rancher_repo.value(),
        user_data: encode_base64(script.as_str()),
        script,
        notices: notices(&k3s, &channel),
    }
}

/// A security group to create.
#[derive(Debug)]
pub struct NewGroup {
    pub name: String,
    pub description: String,
    pub rules: Vec<IngressRule>,
}

/// The security group of an instance.
#[derive(Debug)]
pub enum GroupChoice {
    /// One that exists, which is left alone.
    Existing(String),
    Create(NewGroup),
}

/// Decides which security group an instance gets. A new one opens SSH to a range, and the web and the
/// usable extra ports to all.
pub fn choose_group(args: &ProvisionArgs, ssh_cidr: &str) -> (r: GroupChoice)
    ensures
        match (args.security_group_id, r) {
            (Some(id), GroupChoice::Existing(chosen)) => chosen@ == id@,
            (None, GroupChoice::Create(group)) => {
                &&& group.name@ == group_of(args.name@)
                &&& group.description@ == network::SECURITY_GROUP_DESCRIPTION@
                &&& rule_views(group.rules@) == rules_of(usable(args.ports@), ssh_cidr@)
            },
            _ => false,
        },
{
    match &args.security_group_id {
        Some(id) => GroupChoice::Existing(id.clone()),
        None => {
            let usable = ports::usable_ports(args.ports.as_slice());
            GroupChoice::Create(
                NewGroup {
                    name: network::security_group_name(args.name.as_str()),
                    description: network::SECURITY_GROUP_DESCRIPTION.to_owned(),
                    rules: network::ingress_rules(usable.as_slice(), ssh_cidr),
                },
            )
        },
    }
}

/// A tag of a resource.
#[derive(Debug)]
pub struct Tag {
    pub key: String,
    pub value: String,
}

/// The instance to launch.
#[derive(Debug)]
pub struct LaunchRequest {
    pub image_id: String,
    pub instance_type: String,
    pub count: i32,
    pub key_name: String,
    pub user_data: String,
    pub public_address: bool,
    pub subnet_id: String,
    pub security_group_id: String,
    pub device_index: i32,
    pub device_name: String,
    pub volume_gb: i32,
    pub volume_type: String,
    pub delete_on_termination: bool,
    pub tags: Vec<Tag>,
    /// An IAM instance profile to attach.
    pub profile: Option<String>,
}

/// The keys and values of a list of tags.
pub open spec fn tag_texts(tags: Seq<Tag>) -> Seq<(Seq<char>, Seq<char>)> {
    Seq::new(tags.len(), |i: int| (tags[i].key@, tags[i].value@))
}

/// The instance to launch, with encoded user data and in a security group. The tag `ManagedBy` is what
/// a policy can scope against: it covers instances that do not exist yet.
pub fn launch_request(
    args: &ProvisionArgs,
    user_data: &str,
    security_group_id: &str,
) -> (r: LaunchRequest)
    ensures
        r.image_id@ == args.ami_id@,
        r.instance_type@ == "t3.2xlarge"@,
        r.count == 1,
        r.key_name@ == args.key_name@,
        r.user_data@ == user_data@,
        r.public_address,
        r.subnet_id@ == args.subnet_id@,
        r.security_group_id@ == security_group_id@,
        r.device_index == 0,
        r.device_name@ == "/dev/sda1"@,
        r.volume_gb == args.storage_gb,
        r.volume_type@ == "gp3"@,
        r.delete_on_termination,
        tag_texts(r.tags@) == seq![("Name"@, args.name@), ("ManagedBy"@, "roa"@)],
        opt(r.profile) == opt(args.ssm_profile),
{
    let mut tags: Vec<Tag> = Vec::new();
    tags.push(Tag { key: "Name".to_owned(), value: args.name.clone() });
    tags.push(Tag { key: "ManagedBy".to_owned(), value: "roa".to_owned() });
    assert(tag_texts(tags@) =~= seq![("Name"@, args.name@), ("ManagedBy"@, "roa"@)]);
    LaunchRequest {
        image_id: args.ami_id.clone(),
        instance_type: "t3.2xlarge".to_owned(),
        count: 1,
        key_name: args.key_name.clone(),
        user_data: user_data.to_owned(),
        public_address: true,
        subnet_id: args.subnet_id.clone(),
        security_group_id: security_group_id.to_owned(),
        device_index: 0,
        device_name: "/dev/sda1".to_owned(),
        volume_gb: args.storage_gb,
        volume_type: "gp3".to_owned(),
        delete_on_termination: true,
        tags,
        profile: match &args.ssm_profile {
            Some(profile) => Some(profile.clone()),
            None => None,
        },
    }
}

/// The region to work in: `AWS_REGION`, else `AWS_DEFAULT_REGION`, else `us-west-2`.
pub fn region(aws_region: Option<&str>, aws_default_region: Option<&str>) -> (r: String)
    ensures
        r@ == match (aws_region, aws_default_region) {
            (Some(region), _) => region@,
            (None, Some(region)) => region@,
            (None, None) => "us-west-2"@,
        },
{
    match (aws_region, aws_default_region) {
        (Some(region), _) => region.to_owned(),
        (None, Some(region)) => region.to_owned(),
        (None, None) => "us-west-2".to_owned(),
    }
}

/// The identity of an instance, as far as AWS told it.
pub fn known_id(instance_id: Option<&str>) -> (r: String)
    ensures
        r@ == match opt_str(instance_id) {
            Some(id) => id,
            None => "<unknown>"@,
        },
{
    match instance_id {
        Some(id) => id.to_owned(),
        None => "<unknown>".to_owned(),
    }
}

/// The address at which Rancher is waited for.
pub fn rancher_url(name: &str) -> (r: String)
    ensures
        r@ == "https://"@ + domain_of(name@) + "/"@,
{
    let mut r = "https://".to_owned();
    r.append(network::fqdn(name).as_str());
    r.append("/");
    r
}

/// What came of a launch.
#[derive(Debug)]
pub struct Launched {
    pub instance_id: String,
    pub public_ip: String,
    pub security_group_id: String,
    pub region: String,
    pub created_at: UtcTime,
}

/// The record of a provisioned instance.
pub fn provisioned_instance(
    args: &ProvisionArgs,
    plan: &Provisioning,
    launched: &Launched,
) -> (r: Instance)
    ensures
        r.instance_id@ == launched.instance_id@,
        r.name@ == args.name@,
        r.public_ip@ == launched.public_ip@,
        r.fqdn@ == plan.fqdn@,
        r.security_group_id@ == launched.security_group_id@,
        r.hosted_zone_id@ == args.hosted_zone_id@,
        r.region@ == launched.region@,
        r.created_at@ == utc_shown(launched.created_at@.0, launched.created_at@.1),
        opt(r.rancher_repo) == Some(plan.rancher_repo@),
        r.protected == args.protect,
{
    Instance {
        instance_id: launched.instance_id.clone(),
        name: args.name.clone(),
        public_ip: launched.public_ip.clone(),
        fqdn: plan.fqdn.clone(),
        security_group_id: launched.security_group_id.clone(),
        hosted_zone_id: args.hosted_zone_id.clone(),
        region: launched.region.clone(),
        created_at: launched.created_at.show(),
        rancher_repo: Some(plan.rancher_repo.clone()),
        protected: args.protect,
    }
}

/// Every instance is born with a hardened sshd, whatever its mode and whatever it is asked for with.
pub proof fn every_script_is_hardened(args: ProvisionArgs)
    ensures
        occurs_in(SSHD_HARDENING@, script_of(args)),
{
    match args.mode {
        ProvisionMode::Helm => user_data::every_helm_script_is_hardened(values_of(args)),
        ProvisionMode::Docker => user_data::docker_run_stays_one_command(
            args.docker_registry@,
            image_tag(opt(args.rancher_version)),
            args.ports@,
        ),
    }
}

/// A channel holds no underscore.
proof fn lemma_channel_plain(version: Seq<char>)
    ensures
        channel_of(version) matches Some(channel) ==> free_of(channel, '_'),
{
    if let Some(channel) = channel_of(version) {
        let parts = versions::parts_of(version);
        reveal_strlit("v");
        reveal_strlit(".");
        assert forall|i: int| 0 <= i < channel.len() implies #[trigger] channel[i] != '_' by {
            if 1 <= i <= parts[0].len() {
                assert(channel[i] == parts[0][i - 1]);
            } else if i >= parts[0].len() + 2 {
                assert(channel[i] == parts[1][i - parts[0].len() - 2]);
            }
        }
    }
}

/// In Helm mode, where the k3s version has a minor to pin, the script applies a Plan that tracks the
/// channel of that minor.
pub proof fn pinned_k3s_gets_a_plan(args: ProvisionArgs)
    requires
        args.mode is Helm,
        channel_for(args) is Some,
    ensures
        occurs_in(plan_of(channel_for(args)->0), script_of(args)),
{
    lemma_channel_plain(
        or_empty(pinned_k3s(opt(args.k3s_version), opt(args.rancher_version))),
    );
    user_data::plan_reaches_the_script(values_of(args), channel_for(args)->0);
}

/// Where no k3s version is pinned, there is no minor to pin a Plan to, and none is written.
pub proof fn unpinned_k3s_has_no_channel(args: ProvisionArgs)
    requires
        pinned_k3s(opt(args.k3s_version), opt(args.rancher_version)) is None,
    ensures
        channel_for(args) is None,
        values_of(args).plan == Seq::<char>::empty(),
{
    let parts = versions::parts_of(Seq::empty());
    assert(parts.len() <= 2);
}

/// In Helm mode, where the k3s version has no minor to pin, the script holds no Plan at all, unless one
/// is in another value as it stands in the script.
pub proof fn unpinned_k3s_gets_no_plan(args: ProvisionArgs)
    requires
        args.mode is Helm,
        channel_for(args) is None,
        forall|i: int| 0 <= i < 6 ==> holds_no_plan(#[trigger] standing(values_of(args), i)),
    ensures
        holds_no_plan(script_of(args)),
{
    reveal_strlit("--set bootstrapPassword=\"");
    user_data::script_without_plan(values_of(args));
}

/// The same of values as they are given: where none holds a Plan, nor a placeholder that is filled
/// after its own, the script holds no Plan.
pub proof fn unpinned_k3s_with_plain_values_gets_no_plan(args: ProvisionArgs)
    requires
        args.mode is Helm,
        channel_for(args) is None,
        forall|i: int|
            0 <= i < 6 ==> holds_no_plan((#[trigger] helm_fills(values_of(args))[i]).1),
        forall|i: int, j: int|
            0 <= i < j < 7 ==> !occurs_in(
                (#[trigger] helm_fills(values_of(args))[j]).0,
                (#[trigger] helm_fills(values_of(args))[i]).1,
            ),
    ensures
        holds_no_plan(script_of(args)),
{
    let v = values_of(args);
    assert forall|i: int| 0 <= i < 6 implies holds_no_plan(#[trigger] standing(v, i)) by {
        assert(holds_no_plan(helm_fills(v)[i].1));
        user_data::plain_value_stands_as_given(v, i);
    }
    unpinned_k3s_gets_no_plan(args);
}

/// A Rancher version of a certified minor gets a Plan though no k3s version is asked for.
pub proof fn certified_minor_gets_a_plan(args: ProvisionArgs)
    requires
        args.k3s_version is None,
        args.rancher_version matches Some(version) && certified_k3s(
            rancher_minor(version@),
        ) is Some,
    ensures
        channel_for(args) is Some,
{
    versions::every_certified_version_has_a_channel(rancher_minor(args.rancher_version->0@));
}

/// In Helm mode the script holds what was asked for, each behind what it is for: the address of the
/// chart repository, the hostname, else the domain name of the instance, the address for certificates,
/// the version of k3s, else the one certified for the Rancher version, and the flags for the Rancher
/// version and the password. This is so wherever none of them holds a placeholder.
pub proof fn script_holds_what_was_asked_for(
    args: ProvisionArgs,
    hostname: Seq<char>,
    version: Seq<char>,
    password: Seq<char>,
    k3s: Seq<char>,
)
    requires
        args.mode is Helm,
        hostname == match args.rancher_hostname {
            Some(hostname) => hostname@,
            None => args.name@ + ".ui.rancher.space"@,
        },
        version == match args.rancher_version {
            Some(version) => "--version "@ + version@,
            None => "--devel"@,
        },
        password == match args.rancher_bootstrap_password {
            Some(password) => "--set bootstrapPassword=\""@ + password@ + "\""@,
            None => Seq::<char>::empty(),
        },
        k3s == match (args.k3s_version, args.rancher_version) {
            (Some(version), _) => version@,
            (None, Some(rancher)) => match certified_k3s(rancher_minor(rancher@)) {
                Some(certified) => certified,
                None => Seq::<char>::empty(),
            },
            (None, None) => Seq::<char>::empty(),
        },
        holds_no_placeholder(hostname),
        holds_no_placeholder(args.email@),
        holds_no_placeholder(url_of(args.rancher_repo@)),
        holds_no_placeholder(version),
        holds_no_placeholder(password),
        holds_no_placeholder(k3s),
    ensures
        occurs_in(
            "helm repo add rancher-charts "@ + url_of(args.rancher_repo@) + "\n"@,
            script_of(args),
        ),
        occurs_in("--set hostname="@ + hostname + " "@, script_of(args)),
        occurs_in("--set letsEncrypt.email="@ + args.email@ + " "@, script_of(args)),
        occurs_in("INSTALL_K3S_VERSION="@ + k3s + " "@, script_of(args)),
        occurs_in("  "@ + version + " "@ + password + " \\\n"@, script_of(args)),
{
    let v = values_of(args);
    lemma_channel_plain(
        or_empty(pinned_k3s(opt(args.k3s_version), opt(args.rancher_version))),
    );
    match channel_for(args) {
        Some(channel) => user_data::lemma_plan_unhardened(channel),
        None => {
            reveal_strlit("\"<SSHD_HARDENING>\"");
            lemma_cannot_occur("\"<SSHD_HARDENING>\""@, v.plan, 0);
        },
    }
    user_data::helm_script_holds_its_values(v);
}

/// In Docker mode the run ends with the image that was asked for, by its registry and by the Rancher
/// version, else `head`, and publishes each usable port, wherever neither holds a placeholder.
pub proof fn docker_script_runs_what_was_asked_for(args: ProvisionArgs, tag: Seq<char>, i: int)
    requires
        args.mode is Docker,
        tag == match args.rancher_version {
            Some(version) => version@,
            None => "head"@,
        },
        !occurs_in("\"<RANCHER_VERSION>\""@, args.docker_registry@),
        !occurs_in("\"<EXTRA_PORTS>\""@, args.docker_registry@),
        !occurs_in("\"<SSHD_HARDENING>\""@, args.docker_registry@),
        !occurs_in("\"<EXTRA_PORTS>\""@, tag),
        !occurs_in("\"<SSHD_HARDENING>\""@, tag),
        0 <= i <= usable(args.ports@).len(),
    ensures
        ("  --privileged \\\n  "@ + args.docker_registry@ + ":"@ + tag + "\n"@).is_suffix_of(
            script_of(args),
        ),
        i < usable(args.ports@).len() ==> occurs_in(
            "  -p "@ + decimal(usable(args.ports@)[i].host as nat) + ":"@ + decimal(
                usable(args.ports@)[i].container as nat,
            ) + " \\\n"@,
            script_of(args),
        ),
{
    user_data::docker_runs_the_image_asked_for(args.docker_registry@, tag, args.ports@);
    let ending = "  --privileged \\\n  "@ + args.docker_registry@ + ":"@ + tag + "\n"@;
    let script = script_of(args);
    assert(ending =~= script.subrange(script.len() - ending.len(), script.len() as int));
    if i < usable(args.ports@).len() {
        user_data::every_usable_port_is_published(args.docker_registry@, tag, args.ports@, i);
    }
}

/// An instance that EC2 describes with the tags it was launched with, in either order, is cleaned up
/// under the name it was provisioned with.
pub proof fn launch_tags_lead_to_the_name(
    instance: DescribedInstance,
    name: Seq<char>,
    ip: Seq<char>,
    zone: Seq<char>,
    k: int,
)
    requires
        instance.tags@.len() == 2,
        k == 0 || k == 1,
        opt(instance.tags@[k].key) == Some("Name"@),
        opt(instance.tags@[k].value) == Some(name),
        opt(instance.tags@[1 - k].key) == Some("ManagedBy"@),
        opt(instance.tags@[1 - k].value) == Some("roa"@),
        opt(instance.public_ip) == Some(ip),
        name.len() > 0,
        ip.len() > 0,
    ensures
        details_of(Ok(Some(instance))) == (name, ip),
        group_left(details_of(Ok(Some(instance))).0) == Some("roa-"@ + name),
        record_left(zone, name, ip) is Some,
        record_left(zone, name, ip)->0.record_set.name == name + ".ui.rancher.space"@,
{
    reveal_strlit("Name");
    reveal_strlit("ManagedBy");
    assert("Name"@.len() != "ManagedBy"@.len());
    terminate::cleanup_goes_by_the_name_tag(instance, k, name, ip, zone);
}

/// In Helm mode the upgrade Plan tracks the minor of the k3s version that is installed, whatever its
/// patch: the one that was asked for, else the one certified for the Rancher version.
pub proof fn plan_tracks_the_minor_that_is_installed(
    args: ProvisionArgs,
    k3s: Seq<char>,
    vs: Seq<char>,
    major: Seq<char>,
    minor: Seq<char>,
    rest: Seq<char>,
)
    requires
        args.mode is Helm,
        k3s == match (args.k3s_version, args.rancher_version) {
            (Some(version), _) => version@,
            (None, Some(rancher)) => match certified_k3s(rancher_minor(rancher@)) {
                Some(certified) => certified,
                None => Seq::<char>::empty(),
            },
            (None, None) => Seq::<char>::empty(),
        },
        trimmed(k3s) == vs + (major + seq!['.'] + minor + rest),
        forall|i: int| 0 <= i < vs.len() ==> #[trigger] vs[i] == 'v',
        is_numeral(major),
        is_numeral(minor),
        rest.len() > 1 && rest[0] == '.' && is_digit(rest[1]),
    ensures
        occurs_in("kind: Plan\n"@, script_of(args)),
        occurs_in(
            "  channel: https://update.k3s.io/v1-release/channels/"@ + (seq!['v'] + major + seq!['.']
                + minor) + "\n"@,
            script_of(args),
        ),
{
    let channel = seq!['v'] + major + seq!['.'] + minor;
    versions::minor_is_read_off_the_version(k3s, vs, major, minor, rest);
    assert(channel_for(args) == Some(channel));
    pinned_k3s_gets_a_plan(args);
    user_data::plan_tracks_its_channel(channel);
    user_data::plan_is_of_its_kind(channel);
    user_data::lemma_occurs_through(
        "  channel: https://update.k3s.io/v1-release/channels/"@ + channel + "\n"@,
        plan_of(channel),
        script_of(args),
    );
    user_data::lemma_occurs_through("kind: Plan\n"@, plan_of(channel), script_of(args));
}

/// The record of an instance tells what was asked for and what came of the launch: its name and the
/// domain name below the zone, the repository that its script installs from, and whether it is
/// protected.
pub proof fn record_tells_what_was_provisioned(
    args: &ProvisionArgs,
    plan: &Provisioning,
    launched: &Launched,
    record: Instance,
)
    requires
        call_ensures(provision, (args,), *plan),
        call_ensures(provisioned_instance, (args, plan, launched), record),
    ensures
        record.name@ == args.name@,
        record.fqdn@ == args.name@ + ".ui.rancher.space"@,
        opt(record.rancher_repo) == Some(values_of(*args).repo),
        is_protected(seq![record], launched.instance_id@) == args.protect,
        record.instance_id@ == launched.instance_id@,
        record.public_ip@ == launched.public_ip@,
        record.security_group_id@ == launched.security_group_id@,
        record.hosted_zone_id@ == args.hosted_zone_id@,
        record.region@ == launched.region@,
{
    assert(seq![record][0] == record);
}

/// The instance is launched with the script that was worked out for it, and with the name under which
/// it is found again when it is terminated.
pub proof fn launch_carries_the_script_and_the_name(
    args: &ProvisionArgs,
    plan: &Provisioning,
    user_data: &str,
    group: &str,
    request: LaunchRequest,
)
    requires
        call_ensures(provision, (args,), *plan),
        user_data@ == plan.user_data@,
        call_ensures(launch_request, (args, user_data, group), request),
    ensures
        request.user_data@ == base64_of(script_of(*args)),
        exists|k: int|
            0 <= k < request.tags@.len() && (#[trigger] request.tags@[k]).key@ == "Name"@
                && request.tags@[k].value@ == args.name@,
        forall|k: int|
            0 <= k < request.tags@.len() && (#[trigger] request.tags@[k]).key@ == "Name"@
                ==> request.tags@[k].value@ == args.name@,
        request.subnet_id@ == args.subnet_id@,
        request.key_name@ == args.key_name@,
        request.image_id@ == args.ami_id@,
        request.security_group_id@ == group@,
        request.volume_gb == args.storage_gb,
        request.public_address,
        request.delete_on_termination,
{
    reveal_strlit("Name");
    reveal_strlit("ManagedBy");
    assert("Name"@.len() != "ManagedBy"@.len());
    let texts = tag_texts(request.tags@);
    assert(texts.len() == 2);
    assert(texts[0] == (request.tags@[0].key@, request.tags@[0].value@));
    assert(texts[1] == (request.tags@[1].key@, request.tags@[1].value@));
}

/// The security group that an instance is given is the one asked for, left alone, else a new one under
/// the name by which it is removed again, in which the range opens port 22 and no other.
pub proof fn group_is_the_one_that_is_removed(
    args: &ProvisionArgs,
    ssh_cidr: &str,
    choice: GroupChoice,
)
    requires
        call_ensures(choose_group, (args, ssh_cidr), choice),
    ensures
        match choice {
            GroupChoice::Existing(id) => opt(args.security_group_id) == Some(id@),
            GroupChoice::Create(group) => {
                &&& args.security_group_id is None
                &&& group.name@ == "roa-"@ + args.name@
                &&& args.name@.len() > 0 ==> group_left(args.name@) == Some(group.name@)
                &&& rule_views(group.rules@).contains((22u16, ssh_cidr@))
                &&& forall|i: int|
                    0 <= i < group.rules@.len() && (#[trigger] group.rules@[i]).port != 22
                        ==> group.rules@[i].cidr@ == "0.0.0.0/0"@
            },
        },
{
    match choice {
        GroupChoice::Existing(_) => {},
        GroupChoice::Create(group) => {
            let rules = rule_views(group.rules@);
            network::only_ssh_is_scoped(args.ports@, ssh_cidr@);
            assert(rules[0] == (22u16, ssh_cidr@));
            assert forall|i: int|
                0 <= i < group.rules@.len() && (
                #[trigger] group.rules@[i]).port != 22 implies group.rules@[i].cidr@
                == "0.0.0.0/0"@ by {
                assert(rules[i] == (group.rules@[i].port, group.rules@[i].cidr@));
            }
        },
    }
}

/// The region named first is worked in, and `us-west-2` only where none is named.
pub proof fn named_region_is_worked_in(first: Option<&str>, second: Option<&str>, r: String)
    requires
        call_ensures(region, (first, second), r),
    ensures
        first is Some ==> r@ == first->0@,
        first is None && second is Some ==> r@ == second->0@,
        first is None && second is None ==> r@ == "us-west-2"@,
{
}

/// Rancher is waited for at the domain name that the instance is recorded under.
pub proof fn rancher_is_waited_for_at_its_domain(
    args: &ProvisionArgs,
    plan: &Provisioning,
    name: &str,
    url: String,
)
    requires
        call_ensures(provision, (args,), *plan),
        name@ == args.name@,
        call_ensures(rancher_url, (name,), url),
    ensures
        url@ == "https://"@ + plan.fqdn@ + "/"@,
{
}

/// What is said on provisioning tells the k3s version that the script installs and the channel that its
/// Plan tracks, or that there is none.
pub proof fn notices_tell_version_and_channel(args: &ProvisionArgs, plan: &Provisioning)
    requires
        call_ensures(provision, (args,), *plan),
    ensures
        plan.notices@.len() == 2,
        plan.notices@[0]@ == match pinned_k3s(opt(args.k3s_version), opt(args.rancher_version)) {
            Some(version) => "Using k3s version: "@ + version,
            None =>
            "No k3s version pinned; the k3s installer will use the latest stable release"@,
        },
        plan.notices@[1]@ == match channel_for(*args) {
            Some(channel) => "Pinning the k3s upgrade Plan to channel: "@ + channel,
            None => "No k3s minor to pin; writing no k3s upgrade Plan"@,
        },
{
    let texts = strings(plan.notices@);
    assert(texts.len() == plan.notices@.len());
    assert(texts[0] == plan.notices@[0]@);
    assert(texts[1] == plan.notices@[1]@);
}

} // verus!
