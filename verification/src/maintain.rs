//! The weekly health report: what is run on the instance, what is looked up elsewhere, and what it
//! all comes to.

use vstd::prelude::*;

use crate::channels;
use crate::channels::{channel_wanted, k3s_verdict, reply_view};
use crate::charts;
use crate::charts::{chart_verdict, index_wanted, IndexReply, IndexReplyView};
use crate::clock::UtcTime;
use crate::cluster;
use crate::cluster::{
    chart_view, management_clusters, running_chart_in, upgrade_plan, RunningChart,
    RunningChartView,
};
use crate::instance::Instance;
use crate::json::text_tree;
use crate::on_box;
use crate::on_box::{disk, not_collected, os_updates, reboot_required};
use crate::provision;
use crate::provision::{Launched, ProvisionArgs, Provisioning};
use crate::repo::{url_of, RancherRepo};
use crate::report::{check_of, Check, CheckView, Report, ReportView, Status};
use crate::sections;
use crate::sections::{sections_of, Sections};
use crate::snapshot;
use crate::snapshot::{lookup_view, snapshot_verdict, SnapshotRecord, SnapshotView};
use crate::text;
use crate::text::{lines_of, occurs_in, opt, res_text, strings, trimmed};

verus! {

/// What the health report is asked for with.
#[derive(Debug)]
pub struct MaintainArgs {
    pub name: String,
    pub ssh_user: String,
    pub ssh_key: Option<String>,
    pub rancher_repo: RancherRepo,
    pub json: bool,
}

/// What runs on the instance, in one round trip. Each part writes a marker and its output, and fails
/// for itself alone.
pub const REMOTE_SCRIPT: &'static str = r#"
export KUBECONFIG=${KUBECONFIG:-$HOME/.kube/config}
echo '###apt'
if [ -x /usr/lib/update-notifier/apt-check ]; then
  # Writes `total;security` to stderr with no trailing newline.
  /usr/lib/update-notifier/apt-check 2>&1
  echo
else
  total=$(apt list --upgradable 2>/dev/null | tail -n +2 | grep -c . || true)
  security=$(apt list --upgradable 2>/dev/null | tail -n +2 | grep -c -- '-security' || true)
  echo "${total};${security}"
fi
echo '###reboot'
if [ -f /var/run/reboot-required ]; then
  echo required
  cat /var/run/reboot-required.pkgs 2>/dev/null | tr '\n' ' '
  echo
else
  echo none
fi
echo '###k3s_version'
kubectl get nodes -o jsonpath='{.items[0].status.nodeInfo.kubeletVersion}' 2>/dev/null
echo
echo '###plans'
kubectl get plans.upgrade.cattle.io -A -o json 2>/dev/null
echo '###helm'
helm list -n cattle-system -o json 2>/dev/null
echo '###disk'
df -P / | tail -n 1
sudo -n du -sh /var/lib/rancher/k3s/agent/containerd 2>/dev/null \
  || du -sh /var/lib/rancher/k3s/agent/containerd 2>/dev/null \
  || echo 'unreadable containerd'
echo '###clusters'
kubectl get clusters.management.cattle.io -o json 2>/dev/null
echo '###end'
"#;

/// The arguments of `ssh`. It never prompts, accepts a host that is new, and goes by the domain name:
/// the recorded address goes stale when the instance is stopped and started.
pub open spec fn ssh_args_of(user: Seq<char>, key: Option<Seq<char>>, fqdn: Seq<char>) -> Seq<
    Seq<char>,
> {
    let options = seq![
        "-o"@,
        "BatchMode=yes"@,
        "-o"@,
        "ConnectTimeout=10"@,
        "-o"@,
        "StrictHostKeyChecking=accept-new"@,
    ];
    let identity = match key {
        Some(key) => seq!["-i"@, key],
        None => Seq::empty(),
    };
    options + identity + seq![user + "@"@ + fqdn, "bash -s"@]
}

pub fn ssh_arguments(args: &MaintainArgs, instance: &Instance) -> (r: Vec<String>)
    ensures
        strings(r@) == ssh_args_of(args.ssh_user@, opt(args.ssh_key), instance.fqdn@),
{
    let mut r: Vec<String> = Vec::new();
    r.push("-o".to_owned());
    r.push("BatchMode=yes".to_owned());
    r.push("-o".to_owned());
    r.push("ConnectTimeout=10".to_owned());
    r.push("-o".to_owned());
    r.push("StrictHostKeyChecking=accept-new".to_owned());
    match &args.ssh_key {
        Some(key) => {
            r.push("-i".to_owned());
            r.push(key.clone());
        },
        None => {},
    }
    let mut target = args.ssh_user.clone();
    target.append("@");
    target.append(instance.fqdn.as_str());
    r.push(target);
    r.push("bash -s".to_owned());
    assert(strings(r@) =~= ssh_args_of(args.ssh_user@, opt(args.ssh_key), instance.fqdn@));
    r
}

/// What came of the remote command. It failed only where `ssh` did and the last marker is missing.
pub open spec fn outcome_of(
    success: bool,
    status: Seq<char>,
    stdout: Seq<char>,
    stderr: Seq<char>,
) -> Result<Seq<char>, Seq<char>> {
    if success || occurs_in("###end"@, stdout) {
        Ok(stdout)
    } else if trimmed(stderr).len() == 0 {
        Err("ssh exited with "@ + status)
    } else {
        Err(trimmed(stderr))
    }
}

pub fn remote_outcome(success: bool, status: &str, stdout: &str, stderr: &str) -> (r: Result<
    String,
    String,
>)
    ensures
        res_text(r) == outcome_of(success, status@, stdout@, stderr@),
{
    if success {
        return Ok(stdout.to_owned());
    }
    let out = text::chars(stdout);
    if text::contains(out.as_slice(), "###end") {
        return Ok(stdout.to_owned());
    }
    let err = text::chars(stderr);
    let err = text::trim(err.as_slice());
    if err.len() == 0 {
        let mut e = "ssh exited with ".to_owned();
        e.append(status);
        Err(e)
    } else {
        Err(text::string(err))
    }
}

/// The chart repository to compare with: the one that the manifest records, else the one asked for.
pub open spec fn chart_repo_of(recorded: Option<Seq<char>>, asked: Seq<char>) -> Seq<char> {
    match recorded {
        Some(url) => url,
        None => asked,
    }
}

pub fn chart_repo(instance: &Instance, args: &MaintainArgs) -> (url: String)
    ensures
        url@ == chart_repo_of(opt(instance.rancher_repo), url_of(args.rancher_repo@)),
{
    match &instance.rancher_repo {
        Some(url) => url.clone(),
        None => args.rancher_repo.value(),
    }
}

/// The sections that the instance collected, none where it was not reached.
pub open spec fn collected_in(remote: Result<Seq<char>, Seq<char>>) -> Map<Seq<char>, Seq<char>> {
    match remote {
        Ok(output) => sections_of(lines_of(output)),
        Err(_) => Map::empty(),
    }
}

pub fn collected(remote: &Result<String, String>) -> (s: Sections)
    ensures
        s@ == collected_in(res_text(*remote)),
{
    match remote {
        Ok(output) => sections::split_sections(output.as_str()),
        Err(_) => Sections::new(),
    }
}

/// The k3s version that the instance runs.
pub open spec fn running_k3s_in(collected: Map<Seq<char>, Seq<char>>) -> Option<Seq<char>> {
    if collected.contains_key("k3s_version"@) && trimmed(collected["k3s_version"@]).len() > 0 {
        Some(trimmed(collected["k3s_version"@]))
    } else {
        None
    }
}

pub fn running_k3s(collected: &Sections) -> (r: Option<String>)
    ensures
        opt(r) == running_k3s_in(collected@),
{
    match collected.get("k3s_version") {
        Some(raw) => {
            let cs = text::chars(raw);
            let version = text::trim(cs.as_slice());
            if version.len() > 0 {
                Some(text::string(version))
            } else {
                None
            }
        },
        None => None,
    }
}

/// The chart that Rancher was installed from.
pub open spec fn running_in(collected: Map<Seq<char>, Seq<char>>) -> Option<RunningChartView> {
    if collected.contains_key("helm"@) {
        running_chart_in(text_tree(trimmed(collected["helm"@])))
    } else {
        None
    }
}

fn running_chart(collected: &Sections) -> (r: Option<RunningChart>)
    ensures
        chart_view(r) == running_in(collected@),
{
    match collected.get("helm") {
        Some(raw) => cluster::running_rancher_chart(raw),
        None => None,
    }
}

/// What the running chart comes to, where the releases were collected.
pub open spec fn rancher_chart(
    collected: Map<Seq<char>, Seq<char>>,
    repo_url: Seq<char>,
    index: IndexReplyView,
) -> CheckView {
    if collected.contains_key("helm"@) {
        chart_verdict(running_in(collected), repo_url, index)
    } else {
        not_collected("rancher-chart"@)
    }
}

/// What has to be looked up elsewhere for a report.
#[derive(Debug)]
pub struct Lookups {
    /// The release channel of k3s.
    pub channel: Option<String>,
    /// Where the chart index is.
    pub index: Option<String>,
    /// The region whose snapshots are looked up: always that of the instance.
    pub region: String,
}

/// What has to be looked up elsewhere for an instance, given what it collected.
pub fn lookups(instance: &Instance, collected: &Sections, repo_url: &str) -> (r: Lookups)
    ensures
        opt(r.channel) == channel_wanted(running_k3s_in(collected@)),
        opt(r.index) == index_wanted(running_in(collected@), repo_url@),
        r.region@ == instance.region@,
{
    let channel = match running_k3s(collected) {
        Some(version) => channels::channel_to_look_up(Some(version.as_str())),
        None => channels::channel_to_look_up(None),
    };
    let chart = running_chart(collected);
    let index = charts::index_to_fetch(chart.as_ref(), repo_url);
    Lookups { channel, index, region: instance.region.clone() }
}

/// The check of an instance that was not reached.
pub open spec fn unreachable_check(fqdn: Seq<char>, e: Seq<char>) -> CheckView {
    check_of("ssh"@, Status::Unknown, "could not reach "@ + fqdn + ": "@ + e)
}

/// The checks that rest on what the instance collected.
pub open spec fn on_box_checks(
    collected: Map<Seq<char>, Seq<char>>,
    repo_url: Seq<char>,
    channel: Result<Option<Seq<char>>, Seq<char>>,
    index: IndexReplyView,
) -> Seq<CheckView> {
    seq![
        os_updates(collected),
        reboot_required(collected),
        k3s_verdict(running_k3s_in(collected), channel),
        upgrade_plan(collected),
        rancher_chart(collected, repo_url, index),
        disk(collected),
        management_clusters(collected),
    ]
}

/// All checks of a report, in their order.
pub open spec fn all_checks(
    fqdn: Seq<char>,
    remote: Result<Seq<char>, Seq<char>>,
    repo_url: Seq<char>,
    channel: Result<Option<Seq<char>>, Seq<char>>,
    index: IndexReplyView,
    newest: Result<Option<SnapshotView>, Seq<char>>,
    now: (i64, u32),
) -> Seq<CheckView> {
    let unreached = match remote {
        Ok(_) => Seq::empty(),
        Err(e) => seq![unreachable_check(fqdn, e)],
    };
    unreached + on_box_checks(collected_in(remote), repo_url, channel, index) + seq![
        snapshot_verdict(newest, now),
    ]
}

/// What was found out for a report. Where there was nothing to look up, a reply does not matter.
#[derive(Debug)]
pub struct Findings {
    /// What came of the remote command.
    pub remote: Result<String, String>,
    /// The latest release in the channel of the running k3s version.
    pub channel: Result<Option<String>, String>,
    /// The chart index.
    pub index: IndexReply,
    /// The snapshots of the root volume.
    pub snapshots: Result<Vec<SnapshotRecord>, String>,
    /// When it was found out.
    pub now: UtcTime,
}

fn chart_check(collected: &Sections, repo_url: &str, index: &IndexReply) -> (c: Check)
    ensures
        c@ == rancher_chart(collected@, repo_url@, index@),
{
    if collected.contains_key("helm") {
        let chart = running_chart(collected);
        charts::check_rancher_chart(chart.as_ref(), repo_url, index)
    } else {
        Check::unknown("rancher-chart", "not collected")
    }
}

fn k3s_check(collected: &Sections, channel: &Result<Option<String>, String>) -> (c: Check)
    ensures
        c@ == k3s_verdict(running_k3s_in(collected@), reply_view(*channel)),
{
    match running_k3s(collected) {
        Some(version) => channels::check_k3s_version(Some(version.as_str()), channel),
        None => channels::check_k3s_version(None, channel),
    }
}

/// The report on an instance, from what was found out.
pub fn maintain(instance: &Instance, repo_url: &str, found: &Findings) -> (r: Report)
    requires
        found.now@.1 < 1_000_000_000,
    ensures
        r@ == (ReportView {
            name: instance.name@,
            instance_id: instance.instance_id@,
            fqdn: instance.fqdn@,
            region: instance.region@,
            checks: all_checks(
                instance.fqdn@,
                res_text(found.remote),
                repo_url@,
                reply_view(found.channel),
                found.index@,
                lookup_view(found.snapshots),
                found.now@,
            ),
        }),
{
    let mut checks: Vec<Check> = Vec::new();
    let collected = collected(&found.remote);
    match &found.remote {
        Ok(_) => {},
        Err(e) => {
            let mut detail = "could not reach ".to_owned();
            detail.append(instance.fqdn.as_str());
            detail.append(": ");
            detail.append(e.as_str());
            checks.push(Check::unknown("ssh", detail.as_str()));
        },
    }
    checks.push(on_box::check_os_updates(&collected));
    checks.push(on_box::check_reboot_required(&collected));
    checks.push(k3s_check(&collected, &found.channel));
    checks.push(cluster::check_upgrade_plan(&collected));
    checks.push(chart_check(&collected, repo_url, &found.index));
    checks.push(on_box::check_disk(&collected));
    checks.push(cluster::check_clusters(&collected));
    checks.push(snapshot::check_snapshot(&found.snapshots, &found.now));
    let r = Report {
        name: instance.name.clone(),
        instance_id: instance.instance_id.clone(),
        fqdn: instance.fqdn.clone(),
        region: instance.region.clone(),
        checks,
    };
    assert(r@.checks =~= all_checks(
        instance.fqdn@,
        res_text(found.remote),
        repo_url@,
        reply_view(found.channel),
        found.index@,
        lookup_view(found.snapshots),
        found.now@,
    ));
    r
}

/// Where the instance is not reached, the report still comes: every check on it is unknown, nothing
/// is looked up for them, and the check on the snapshots is what it would have been.
pub proof fn unreached_instance_is_unknown(
    fqdn: Seq<char>,
    e: Seq<char>,
    repo_url: Seq<char>,
    channel: Result<Option<Seq<char>>, Seq<char>>,
    index: IndexReplyView,
    newest: Result<Option<SnapshotView>, Seq<char>>,
    now: (i64, u32),
)
    ensures
        ({
            let checks = all_checks(fqdn, Err(e), repo_url, channel, index, newest, now);
            let nothing = collected_in(Err(e));
            &&& checks.len() == 9
            &&& forall|i: int| 0 <= i < 8 ==> (#[trigger] checks[i]).status == Status::Unknown
            &&& checks[8] == snapshot_verdict(newest, now)
            &&& channel_wanted(running_k3s_in(nothing)) is None
            &&& index_wanted(running_in(nothing), repo_url) is None
        }),
{
}

/// Whether two collections agree on a section.
pub open spec fn same_section(
    a: Map<Seq<char>, Seq<char>>,
    b: Map<Seq<char>, Seq<char>>,
    name: Seq<char>,
) -> bool {
    a.contains_key(name) == b.contains_key(name) && (a.contains_key(name) ==> a[name] == b[name])
}

/// Each check on the instance depends on its own section alone: what one part of the remote command
/// gives, or fails to give, changes no other check.
pub proof fn checks_are_independent(
    a: Map<Seq<char>, Seq<char>>,
    b: Map<Seq<char>, Seq<char>>,
    repo_url: Seq<char>,
    channel: Result<Option<Seq<char>>, Seq<char>>,
    index: IndexReplyView,
)
    ensures
        same_section(a, b, "apt"@) ==> os_updates(a) == os_updates(b),
        same_section(a, b, "reboot"@) ==> reboot_required(a) == reboot_required(b),
        same_section(a, b, "k3s_version"@) ==> k3s_verdict(running_k3s_in(a), channel)
            == k3s_verdict(running_k3s_in(b), channel),
        same_section(a, b, "plans"@) ==> upgrade_plan(a) == upgrade_plan(b),
        same_section(a, b, "helm"@) ==> rancher_chart(a, repo_url, index) == rancher_chart(
            b,
            repo_url,
            index,
        ),
        same_section(a, b, "disk"@) ==> disk(a) == disk(b),
        same_section(a, b, "clusters"@) ==> management_clusters(a) == management_clusters(b),
{
    assert(same_section(a, b, "apt"@) ==> os_updates(a) == os_updates(b)) by {}
    assert(same_section(a, b, "reboot"@) ==> reboot_required(a) == reboot_required(b)) by {}
    if same_section(a, b, "k3s_version"@) {
        assert(running_k3s_in(a) == running_k3s_in(b));
    }
    assert(same_section(a, b, "plans"@) ==> upgrade_plan(a) == upgrade_plan(b)) by {}
    if same_section(a, b, "helm"@) {
        assert(running_in(a) == running_in(b));
    }
    assert(same_section(a, b, "disk"@) ==> disk(a) == disk(b)) by {}
    assert(same_section(a, b, "clusters"@) ==> management_clusters(a) == management_clusters(b)) by {}
}

/// A report has one check on each thing, in one order, whatever was found out.
pub proof fn every_check_is_reported_in_order(
    fqdn: Seq<char>,
    output: Seq<char>,
    repo_url: Seq<char>,
    channel: Result<Option<Seq<char>>, Seq<char>>,
    index: IndexReplyView,
    newest: Result<Option<SnapshotView>, Seq<char>>,
    now: (i64, u32),
)
    ensures
        ({
            let checks = all_checks(fqdn, Ok(output), repo_url, channel, index, newest, now);
            &&& checks.len() == 8
            &&& checks[0].name == "os-updates"@
            &&& checks[1].name == "reboot"@
            &&& checks[2].name == "k3s-version"@
            &&& checks[3].name == "k3s-upgrade-plan"@
            &&& checks[4].name == "rancher-chart"@
            &&& checks[5].name == "disk"@
            &&& checks[6].name == "clusters"@
            &&& checks[7].name == "snapshot"@
            &&& checks[0] == os_updates(sections_of(lines_of(output)))
            &&& checks[1] == reboot_required(sections_of(lines_of(output)))
            &&& checks[2] == k3s_verdict(running_k3s_in(sections_of(lines_of(output))), channel)
            &&& checks[3] == upgrade_plan(sections_of(lines_of(output)))
            &&& checks[5] == disk(sections_of(lines_of(output)))
            &&& checks[6] == management_clusters(sections_of(lines_of(output)))
            &&& checks[7] == snapshot_verdict(newest, now)
        }),
{
    let checks = all_checks(fqdn, Ok(output), repo_url, channel, index, newest, now);
    let on_box = on_box_checks(collected_in(Ok(output)), repo_url, channel, index);
    assert(checks =~= on_box + seq![snapshot_verdict(newest, now)]);
}

/// The remote command failed exactly where `ssh` did and what it wrote lacks the last marker. What was
/// written is then dropped, and the reason is what `ssh` complained of, or how it exited where it did
/// not complain.
pub proof fn ssh_failed_without_the_last_marker(
    status: Seq<char>,
    before: Seq<char>,
    behind: Seq<char>,
    stdout: Seq<char>,
    complaint: Seq<char>,
)
    requires
        !occurs_in("###end"@, stdout),
        complaint.len() > 0 && !text::is_white(complaint[0]) && !text::is_white(complaint.last()),
    ensures
        outcome_of(true, status, stdout, complaint) == Ok::<Seq<char>, Seq<char>>(stdout),
        outcome_of(false, status, before + "###end"@ + behind, complaint) == Ok::<
            Seq<char>,
            Seq<char>,
        >(before + "###end"@ + behind),
        outcome_of(false, status, stdout, complaint) == Err::<Seq<char>, Seq<char>>(complaint),
        outcome_of(false, status, stdout, Seq::empty()) == Err::<Seq<char>, Seq<char>>(
            "ssh exited with "@ + status,
        ),
{
    let marked = before + "###end"@ + behind;
    let tail = marked.skip(before.len() as int);
    assert(tail =~= "###end"@ + behind);
    assert(tail.take("###end"@.len() as int) =~= "###end"@);
    assert("###end"@.is_prefix_of(marked.skip(before.len() as int)));
    text::lemma_trimmed_already(complaint);
    text::lemma_trimmed_already(Seq::empty());
}

/// The recorded repository is compared with wherever there is one, else the one that is asked for.
pub proof fn recorded_repository_comes_first(recorded: Seq<char>, asked: Seq<char>)
    ensures
        chart_repo_of(Some(recorded), asked) == recorded,
        chart_repo_of(None, asked) == asked,
{
}

/// The running k3s version is what its section holds, without the white space around it; a section of
/// white space holds none.
pub proof fn running_version_is_collected(
    collected: Map<Seq<char>, Seq<char>>,
    version: Seq<char>,
)
    requires
        version.len() > 0 && !text::is_white(version[0]) && !text::is_white(version.last()),
    ensures
        collected.contains_key("k3s_version"@) && trimmed(collected["k3s_version"@]) == version
            ==> running_k3s_in(collected) == Some(version),
        collected.contains_key("k3s_version"@) && trimmed(collected["k3s_version"@]).len() == 0
            ==> running_k3s_in(collected) is None,
        !collected.contains_key("k3s_version"@) ==> running_k3s_in(collected) is None,
{
}

/// The running chart is that of the release named `rancher` in the section `helm`, read as JSON. It is
/// held against the chart index where the section was collected, and is unknown where it was not.
pub proof fn running_chart_is_collected(
    collected: Map<Seq<char>, Seq<char>>,
    repo_url: Seq<char>,
    index: IndexReplyView,
)
    ensures
        collected.contains_key("helm"@) ==> {
            let running = running_chart_in(text_tree(trimmed(collected["helm"@])));
            &&& running_in(collected) == running
            &&& rancher_chart(collected, repo_url, index) == chart_verdict(running, repo_url, index)
        },
        !collected.contains_key("helm"@) ==> {
            &&& running_in(collected) is None
            &&& rancher_chart(collected, repo_url, index).status == Status::Unknown
        },
{
}

/// The report is on the instance it was asked of, and its checks are those on what was found out; the
/// page and the verdict rest on nothing else.
pub proof fn report_is_on_the_instance(
    instance: &Instance,
    repo_url: &str,
    found: &Findings,
    report: Report,
)
    requires
        call_ensures(maintain, (instance, repo_url, found), report),
    ensures
        report@.name == instance.name@,
        report@.instance_id == instance.instance_id@,
        report@.fqdn == instance.fqdn@,
        report@.region == instance.region@,
        report@.checks.len() == if found.remote is Ok {
            8int
        } else {
            9int
        },
        report@.checks.last() == snapshot_verdict(lookup_view(found.snapshots), found.now@),
{
}

/// An instance is held against the chart repository that it was provisioned from, whichever is asked
/// for now, and what is looked up for it is looked up in its own region.
pub proof fn provisioned_repository_is_compared_with(
    provisioned: &ProvisionArgs,
    plan: &Provisioning,
    launched: &Launched,
    record: &Instance,
    args: &MaintainArgs,
    url: String,
    repo_url: &str,
    collected: &Sections,
    wanted: Lookups,
)
    requires
        call_ensures(provision::provision, (provisioned,), *plan),
        call_ensures(provision::provisioned_instance, (provisioned, plan, launched), *record),
        call_ensures(chart_repo, (record, args), url),
        repo_url@ == url@,
        call_ensures(lookups, (record, collected, repo_url), wanted),
    ensures
        url@ == url_of(provisioned.rancher_repo@),
        wanted.region@ == launched.region@,
{
}

/// The remote command goes to the asked user at the domain name of the instance, and the key is offered
/// exactly where one is given.
pub proof fn ssh_goes_to_the_domain_name(
    args: &MaintainArgs,
    instance: &Instance,
    r: Vec<String>,
)
    requires
        call_ensures(ssh_arguments, (args, instance), r),
    ensures
        r@.len() >= 2,
        r@[r@.len() - 2]@ == args.ssh_user@ + "@"@ + instance.fqdn@,
        r@.last()@ == "bash -s"@,
        strings(r@).contains("BatchMode=yes"@),
        match args.ssh_key {
            Some(key) => r@.len() == 10 && r@[6]@ == "-i"@ && r@[7]@ == key@,
            None => r@.len() == 8,
        },
{
    let texts = strings(r@);
    assert(texts.len() == r@.len());
    assert(texts[1] == "BatchMode=yes"@);
    assert(texts[r@.len() - 2] == r@[r@.len() - 2]@);
    assert(texts[r@.len() - 1] == r@.last()@);
    if args.ssh_key is Some {
        assert(texts[6] == r@[6]@);
        assert(texts[7] == r@[7]@);
    }
}

} // verus!
