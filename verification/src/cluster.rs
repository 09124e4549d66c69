//! The checks on what the cluster reports: upgrade plans, management clusters and Helm releases.

use vstd::prelude::*;

use crate::json;
use crate::json::{list_in, text_in, text_tree, trees, Json, JsonTree};
use crate::on_box::not_collected;
use crate::report::{check_of, Check, CheckView, Status};
use crate::sections::Sections;
use crate::text;
use crate::text::{after_last, joined, opt_str, strings, trimmed};

verus! {

/// What a given document holds.
pub open spec fn given(json: Option<&Json>) -> Option<JsonTree> {
    match json {
        Some(j) => Some(j.tree()),
        None => None,
    }
}

/// A text, or another in its place.
pub open spec fn or_else(text: Option<Seq<char>>, other: Seq<char>) -> Seq<char> {
    match text {
        Some(t) => t,
        None => other,
    }
}

/// The objects that a list of the cluster holds.
pub open spec fn items_of(list: JsonTree) -> Seq<JsonTree> {
    match list_in(list.member("items"@)) {
        Some(items) => items,
        None => Seq::empty(),
    }
}

/// The name of an object of the cluster.
pub open spec fn name_of(item: JsonTree) -> Seq<char> {
    or_else(text_in(item.inner("metadata"@, "name"@)), "<unnamed>"@)
}

/// What a plan upgrades to: the channel by the last part of its address, else the pinned version.
pub open spec fn target_of(plan: JsonTree) -> Seq<char> {
    match (text_in(plan.inner("spec"@, "channel"@)), text_in(plan.inner("spec"@, "version"@))) {
        (Some(channel), _) => after_last(channel, '/'),
        (None, Some(version)) => "pinned "@ + version,
        (None, None) => "no channel or version"@,
    }
}

/// Whether a plan is being applied.
pub open spec fn is_applying(plan: JsonTree) -> bool {
    match list_in(plan.inner("status"@, "applying"@)) {
        Some(nodes) => nodes.len() > 0,
        None => false,
    }
}

pub open spec fn plan_line(plan: JsonTree) -> Seq<char> {
    let line = name_of(plan) + " -> "@ + target_of(plan);
    if is_applying(plan) {
        line + " (applying)"@
    } else {
        line
    }
}

pub open spec fn plan_lines(plans: Seq<JsonTree>) -> Seq<Seq<char>> {
    Seq::new(plans.len(), |i: int| plan_line(plans[i]))
}

pub open spec fn any_applying(plans: Seq<JsonTree>) -> bool {
    exists|i: int| 0 <= i < plans.len() && is_applying(#[trigger] plans[i])
}

/// What the upgrade plans come to. Having none needs attention, and so does one that is being
/// applied.
pub open spec fn plans_verdict(list: Option<JsonTree>) -> CheckView {
    match list {
        None => check_of("k3s-upgrade-plan"@, Status::Unknown, "could not read plans"@),
        Some(list) => {
            let plans = items_of(list);
            let detail = joined(plan_lines(plans), ", "@);
            if plans.len() == 0 {
                check_of(
                    "k3s-upgrade-plan"@,
                    Status::Attention,
                    "no system-upgrade-controller Plan -- k3s patches are not being applied"@,
                )
            } else if any_applying(plans) {
                check_of(
                    "k3s-upgrade-plan"@,
                    Status::Attention,
                    detail + " -- upgrade in flight"@,
                )
            } else {
                check_of("k3s-upgrade-plan"@, Status::Okay, detail)
            }
        },
    }
}

/// What the section `plans` comes to.
pub open spec fn upgrade_plan(sections: Map<Seq<char>, Seq<char>>) -> CheckView {
    if !sections.contains_key("plans"@) {
        not_collected("k3s-upgrade-plan"@)
    } else {
        plans_verdict(text_tree(trimmed(sections["plans"@])))
    }
}

fn text_or(text: Option<&str>, other: &str) -> (r: String)
    ensures
        r@ == or_else(opt_str(text), other@),
{
    match text {
        Some(t) => t.to_owned(),
        None => other.to_owned(),
    }
}

fn item_name(item: &Json) -> (r: String)
    ensures
        r@ == name_of(item.tree()),
{
    text_or(json::text_of(item.get_inner("metadata", "name")), "<unnamed>")
}

fn plan_target(plan: &Json) -> (r: String)
    ensures
        r@ == target_of(plan.tree()),
{
    let channel = json::text_of(plan.get_inner("spec", "channel"));
    let version = json::text_of(plan.get_inner("spec", "version"));
    match (channel, version) {
        (Some(channel), _) => {
            let cs = text::chars(channel);
            text::string(text::tail_after(cs.as_slice(), '/'))
        },
        (None, Some(version)) => {
            let mut r = "pinned ".to_owned();
            r.append(version);
            r
        },
        (None, None) => "no channel or version".to_owned(),
    }
}

fn applying(plan: &Json) -> (b: bool)
    ensures
        b == is_applying(plan.tree()),
{
    match json::list_of(plan.get_inner("status", "applying")) {
        Some(nodes) => nodes.len() > 0,
        None => false,
    }
}

fn show_plan(plan: &Json) -> (r: String)
    ensures
        r@ == plan_line(plan.tree()),
{
    let mut line = item_name(plan);
    line.append(" -> ");
    line.append(plan_target(plan).as_str());
    if applying(plan) {
        line.append(" (applying)");
    }
    line
}

/// The check on the upgrade plans, from the list of them.
pub fn check_plans(list: Option<&Json>) -> (c: Check)
    ensures
        c@ == plans_verdict(given(list)),
{
    let list = match list {
        Some(list) => list,
        None => {
            return Check::unknown("k3s-upgrade-plan", "could not read plans");
        },
    };
    let none: Vec<Json> = Vec::new();
    let items = match json::list_of(list.get("items")) {
        Some(items) => items,
        None => &none,
    };
    let ghost plans = trees(items@);
    assert(trees(none@) =~= Seq::<JsonTree>::empty());
    assert(plans == items_of(list.tree()));
    if items.len() == 0 {
        return Check::attention(
            "k3s-upgrade-plan",
            "no system-upgrade-controller Plan -- k3s patches are not being applied",
        );
    }
    let mut lines: Vec<String> = Vec::new();
    let mut in_flight = false;
    let mut i: usize = 0;
    while i < items.len()
        invariant
            i <= items.len(),
            plans == trees(items@),
            strings(lines@) == plan_lines(plans.take(i as int)),
            in_flight == any_applying(plans.take(i as int)),
        decreases items.len() - i,
    {
        let item = &items[i];
        let ghost before = lines@;
        assert(plans[i as int] == item.tree());
        let now = applying(item);
        let line = show_plan(item);
        let ghost shown = line;
        lines.push(line);
        proof {
            text::lemma_strings_push(before, shown);
            assert(strings(lines@) =~= plan_lines(plans.take(i + 1)));
            let (a, b) = (plans.take(i as int), plans.take(i + 1));
            if any_applying(a) {
                let j = choose|j: int| 0 <= j < a.len() && is_applying(#[trigger] a[j]);
                assert(b[j] == a[j]);
            }
            if is_applying(item.tree()) {
                assert(b[i as int] == item.tree());
            }
            if any_applying(b) {
                let j = choose|j: int| 0 <= j < b.len() && is_applying(#[trigger] b[j]);
                if j < i {
                    assert(a[j] == b[j]);
                }
            }
        }
        if now {
            in_flight = true;
        }
        i += 1;
    }
    assert(plans.take(i as int) =~= plans);
    let mut detail = text::join(&lines, ", ");
    if in_flight {
        detail.append(" -- upgrade in flight");
        Check::attention("k3s-upgrade-plan", detail.as_str())
    } else {
        Check::ok("k3s-upgrade-plan", detail.as_str())
    }
}

/// The check on the upgrade plans, from what the instance collected.
pub fn check_upgrade_plan(sections: &Sections) -> (c: Check)
    ensures
        c@ == upgrade_plan(sections@),
{
    match sections.get("plans") {
        None => Check::unknown("k3s-upgrade-plan", "not collected"),
        Some(raw) => {
            let cs = text::chars(raw);
            let list = json::parse(text::string(text::trim(cs.as_slice())).as_str());
            check_plans(list.as_ref())
        },
    }
}

/// The status of the first condition of a type.
pub open spec fn status_in(conditions: Seq<JsonTree>, kind: Seq<char>) -> Option<Seq<char>>
    decreases conditions.len(),
{
    if conditions.len() == 0 {
        None
    } else if text_in(conditions[0].member("type"@)) == Some(kind) {
        text_in(conditions[0].member("status"@))
    } else {
        status_in(conditions.drop_first(), kind)
    }
}

/// The status of a condition of a cluster.
pub open spec fn condition_of(cluster: JsonTree, kind: Seq<char>) -> Option<Seq<char>> {
    match list_in(cluster.inner("status"@, "conditions"@)) {
        Some(conditions) => status_in(conditions, kind),
        None => None,
    }
}

/// The cluster that Rancher itself runs in.
pub open spec fn is_local(cluster: JsonTree) -> bool {
    name_of(cluster) == "local"@
}

/// Whether a cluster is well: the local one where it is ready, any other where it is connected.
pub open spec fn is_healthy(cluster: JsonTree) -> bool {
    if is_local(cluster) {
        condition_of(cluster, "Ready"@) == Some("True"@)
    } else {
        condition_of(cluster, "Connected"@) == Some("True"@)
    }
}

/// Whether a cluster is being registered: its agent is deployed but not connected yet.
pub open spec fn is_registering(cluster: JsonTree) -> bool {
    !is_local(cluster) && condition_of(cluster, "Connected"@) == Some("False"@) && condition_of(
        cluster,
        "AgentDeployed"@,
    ) == Some("True"@)
}

pub open spec fn is_degraded(cluster: JsonTree) -> bool {
    !is_healthy(cluster) && !is_registering(cluster)
}

pub open spec fn state_of(cluster: JsonTree) -> Seq<char> {
    if is_local(cluster) {
        "Ready="@ + or_else(condition_of(cluster, "Ready"@), "?"@)
    } else if is_registering(cluster) {
        "registering"@
    } else {
        "Connected="@ + or_else(condition_of(cluster, "Connected"@), "?"@)
    }
}

pub open spec fn cluster_line(cluster: JsonTree) -> Seq<char> {
    or_else(text_in(cluster.inner("spec"@, "displayName"@)), name_of(cluster)) + " ("@ + name_of(
        cluster,
    ) + ") "@ + state_of(cluster)
}

pub open spec fn cluster_lines(clusters: Seq<JsonTree>) -> Seq<Seq<char>> {
    Seq::new(clusters.len(), |i: int| cluster_line(clusters[i]))
}

pub open spec fn any_degraded(clusters: Seq<JsonTree>) -> bool {
    exists|i: int| 0 <= i < clusters.len() && is_degraded(#[trigger] clusters[i])
}

/// What the management clusters come to: one that is neither well nor being registered needs
/// attention.
pub open spec fn clusters_verdict(list: Option<JsonTree>) -> CheckView {
    match list {
        None => check_of("clusters"@, Status::Unknown, "could not read clusters"@),
        Some(list) => {
            let clusters = items_of(list);
            if clusters.len() == 0 {
                check_of("clusters"@, Status::Unknown, "no management clusters returned"@)
            } else {
                check_of(
                    "clusters"@,
                    if any_degraded(clusters) {
                        Status::Attention
                    } else {
                        Status::Okay
                    },
                    joined(cluster_lines(clusters), ", "@),
                )
            }
        },
    }
}

/// What the section `clusters` comes to.
pub open spec fn management_clusters(sections: Map<Seq<char>, Seq<char>>) -> CheckView {
    if !sections.contains_key("clusters"@) {
        not_collected("clusters"@)
    } else {
        clusters_verdict(text_tree(trimmed(sections["clusters"@])))
    }
}

fn find_status<'a>(conditions: &'a Vec<Json>, kind: &str) -> (r: Option<&'a str>)
    ensures
        opt_str(r) == status_in(trees(conditions@), kind@),
{
    let ghost all = trees(conditions@);
    let mut i: usize = 0;
    assert(all.skip(0) =~= all);
    while i < conditions.len()
        invariant
            i <= conditions.len(),
            all == trees(conditions@),
            status_in(all.skip(i as int), kind@) == status_in(all, kind@),
        decreases conditions.len() - i,
    {
        let condition = &conditions[i];
        assert(all.skip(i as int)[0] == condition.tree());
        assert(all.skip(i as int).drop_first() =~= all.skip(i + 1));
        match json::text_of(condition.get("type")) {
            Some(found) => {
                if text::same(found, kind) {
                    return json::text_of(condition.get("status"));
                }
            },
            None => {},
        }
        i += 1;
    }
    None
}

fn condition<'a>(cluster: &'a Json, kind: &str) -> (r: Option<&'a str>)
    ensures
        opt_str(r) == condition_of(cluster.tree(), kind@),
{
    match json::list_of(cluster.get_inner("status", "conditions")) {
        Some(conditions) => find_status(conditions, kind),
        None => None,
    }
}

fn says(text: Option<&str>, word: &str) -> (b: bool)
    ensures
        b == (opt_str(text) == Some(word@)),
{
    match text {
        Some(t) => text::same(t, word),
        None => false,
    }
}

/// The line on a cluster, and whether it is degraded.
fn judge_cluster(cluster: &Json) -> (r: (String, bool))
    ensures
        r.0@ == cluster_line(cluster.tree()),
        r.1 == is_degraded(cluster.tree()),
{
    let id = item_name(cluster);
    let display = text_or(
        json::text_of(cluster.get_inner("spec", "displayName")),
        id.as_str(),
    );
    let ready = condition(cluster, "Ready");
    let connected = condition(cluster, "Connected");
    let agent_deployed = condition(cluster, "AgentDeployed");
    let local = text::same(id.as_str(), "local");
    let healthy = if local {
        says(ready, "True")
    } else {
        says(connected, "True")
    };
    let registering = !local && says(connected, "False") && says(agent_deployed, "True");
    let state = if local {
        let mut s = "Ready=".to_owned();
        s.append(text_or(ready, "?").as_str());
        s
    } else if registering {
        "registering".to_owned()
    } else {
        let mut s = "Connected=".to_owned();
        s.append(text_or(connected, "?").as_str());
        s
    };
    let mut line = display;
    line.append(" (");
    line.append(id.as_str());
    line.append(") ");
    line.append(state.as_str());
    (line, !healthy && !registering)
}

/// The check on the management clusters, from the list of them.
pub fn check_cluster_list(list: Option<&Json>) -> (c: Check)
    ensures
        c@ == clusters_verdict(given(list)),
{
    let list = match list {
        Some(list) => list,
        None => {
            return Check::unknown("clusters", "could not read clusters");
        },
    };
    let none: Vec<Json> = Vec::new();
    let items = match json::list_of(list.get("items")) {
        Some(items) => items,
        None => &none,
    };
    let ghost clusters = trees(items@);
    assert(trees(none@) =~= Seq::<JsonTree>::empty());
    assert(clusters == items_of(list.tree()));
    if items.len() == 0 {
        return Check::unknown("clusters", "no management clusters returned");
    }
    let mut lines: Vec<String> = Vec::new();
    let mut degraded = false;
    let mut i: usize = 0;
    while i < items.len()
        invariant
            i <= items.len(),
            clusters == trees(items@),
            strings(lines@) == cluster_lines(clusters.take(i as int)),
            degraded == any_degraded(clusters.take(i as int)),
        decreases items.len() - i,
    {
        let ghost before = lines@;
        assert(clusters[i as int] == items@[i as int].tree());
        let (line, down) = judge_cluster(&items[i]);
        let ghost shown = line;
        lines.push(line);
        proof {
            text::lemma_strings_push(before, shown);
            assert(strings(lines@) =~= cluster_lines(clusters.take(i + 1)));
            let (a, b) = (clusters.take(i as int), clusters.take(i + 1));
            if any_degraded(a) {
                let j = choose|j: int| 0 <= j < a.len() && is_degraded(#[trigger] a[j]);
                assert(b[j] == a[j]);
            }
            if down {
                assert(b[i as int] == clusters[i as int]);
            }
            if any_degraded(b) {
                let j = choose|j: int| 0 <= j < b.len() && is_degraded(#[trigger] b[j]);
                if j < i {
                    assert(a[j] == b[j]);
                }
            }
        }
        if down {
            degraded = true;
        }
        i += 1;
    }
    assert(clusters.take(i as int) =~= clusters);
    let detail = text::join(&lines, ", ");
    if degraded {
        Check::attention("clusters", detail.as_str())
    } else {
        Check::ok("clusters", detail.as_str())
    }
}

/// The check on the management clusters, from what the instance collected.
pub fn check_clusters(sections: &Sections) -> (c: Check)
    ensures
        c@ == management_clusters(sections@),
{
    match sections.get("clusters") {
        None => Check::unknown("clusters", "not collected"),
        Some(raw) => {
            let cs = text::chars(raw);
            let list = json::parse(text::string(text::trim(cs.as_slice())).as_str());
            check_cluster_list(list.as_ref())
        },
    }
}

/// The chart that Rancher was installed from.
#[derive(Debug, Clone)]
pub struct RunningChart {
    pub chart: String,
    pub app_version: String,
}

/// The texts of a running chart.
pub struct RunningChartView {
    pub chart: Seq<char>,
    pub app_version: Seq<char>,
}

impl View for RunningChart {
    type V = RunningChartView;

    open spec fn view(&self) -> RunningChartView {
        RunningChartView { chart: self.chart@, app_version: self.app_version@ }
    }
}

/// The chart of the first release that is named `rancher`.
pub open spec fn rancher_release(releases: Seq<JsonTree>) -> Option<RunningChartView>
    decreases releases.len(),
{
    if releases.len() == 0 {
        None
    } else if text_in(releases[0].member("name"@)) == Some("rancher"@) {
        Some(
            RunningChartView {
                chart: or_else(text_in(releases[0].member("chart"@)), Seq::empty()),
                app_version: or_else(text_in(releases[0].member("app_version"@)), Seq::empty()),
            },
        )
    } else {
        rancher_release(releases.drop_first())
    }
}

/// The running chart in the output of `helm list`.
pub open spec fn running_chart_in(list: Option<JsonTree>) -> Option<RunningChartView> {
    match list_in(list) {
        Some(releases) => rancher_release(releases),
        None => None,
    }
}

/// The texts of a running chart, where there is one.
pub open spec fn chart_view(chart: Option<RunningChart>) -> Option<RunningChartView> {
    match chart {
        Some(c) => Some(c@),
        None => None,
    }
}

/// The running chart, from the list of releases.
pub fn find_rancher_release(list: Option<&Json>) -> (r: Option<RunningChart>)
    ensures
        chart_view(r) == running_chart_in(given(list)),
{
    let releases = match json::list_of(list) {
        Some(releases) => releases,
        None => {
            return None;
        },
    };
    let ghost all = trees(releases@);
    let mut i: usize = 0;
    assert(all.skip(0) =~= all);
    while i < releases.len()
        invariant
            i <= releases.len(),
            all == trees(releases@),
            running_chart_in(given(list)) == rancher_release(all),
            rancher_release(all.skip(i as int)) == rancher_release(all),
        decreases releases.len() - i,
    {
        let release = &releases[i];
        assert(all.skip(i as int)[0] == release.tree());
        assert(all.skip(i as int).drop_first() =~= all.skip(i + 1));
        if says(json::text_of(release.get("name")), "rancher") {
            proof {
                reveal_strlit("");
                assert(""@ =~= Seq::<char>::empty());
            }
            let chart = text_or(json::text_of(release.get("chart")), "");
            let app_version = text_or(json::text_of(release.get("app_version")), "");
            return Some(RunningChart { chart, app_version });
        }
        i += 1;
    }
    None
}

/// The chart that Rancher was installed from, out of the output of `helm list -o json`.
pub fn running_rancher_chart(raw: &str) -> (r: Option<RunningChart>)
    ensures
        chart_view(r) == running_chart_in(text_tree(trimmed(raw@))),
{
    let cs = text::chars(raw);
    let list = json::parse(text::string(text::trim(cs.as_slice())).as_str());
    find_rancher_release(list.as_ref())
}

/// Whether the first condition of a type, in the list of conditions of a cluster, has a status.
#[verifier::opaque]
pub open spec fn first_condition(cluster: JsonTree, kind: Seq<char>, status: Seq<char>) -> bool {
    list_in(cluster.inner("status"@, "conditions"@)) matches Some(conditions) && exists|k: int|
        {
            &&& 0 <= k < conditions.len()
            &&& text_in((#[trigger] conditions[k]).member("type"@)) == Some(kind)
            &&& text_in(conditions[k].member("status"@)) == Some(status)
            &&& forall|j: int|
                0 <= j < k ==> text_in((#[trigger] conditions[j]).member("type"@)) != Some(kind)
        }
}

proof fn lemma_status_in(conditions: Seq<JsonTree>, kind: Seq<char>, status: Seq<char>)
    ensures
        status_in(conditions, kind) == Some(status) <==> exists|k: int|
            {
                &&& 0 <= k < conditions.len()
                &&& text_in((#[trigger] conditions[k]).member("type"@)) == Some(kind)
                &&& text_in(conditions[k].member("status"@)) == Some(status)
                &&& forall|j: int|
                    0 <= j < k ==> text_in((#[trigger] conditions[j]).member("type"@)) != Some(kind)
            },
    decreases conditions.len(),
{
    if conditions.len() > 0 {
        let rest = conditions.drop_first();
        lemma_status_in(rest, kind, status);
        if text_in(conditions[0].member("type"@)) != Some(kind) {
            if status_in(rest, kind) == Some(status) {
                let k = choose|k: int|
                    {
                        &&& 0 <= k < rest.len()
                        &&& text_in((#[trigger] rest[k]).member("type"@)) == Some(kind)
                        &&& text_in(rest[k].member("status"@)) == Some(status)
                        &&& forall|j: int|
                            0 <= j < k ==> text_in((#[trigger] rest[j]).member("type"@)) != Some(
                                kind,
                            )
                    };
                assert(conditions[k + 1] == rest[k]);
                assert forall|j: int| 0 <= j < k + 1 implies text_in(
                    (#[trigger] conditions[j]).member("type"@),
                ) != Some(kind) by {
                    if j > 0 {
                        assert(conditions[j] == rest[j - 1]);
                    }
                }
            }
            if exists|k: int|
                {
                    &&& 0 <= k < conditions.len()
                    &&& text_in((#[trigger] conditions[k]).member("type"@)) == Some(kind)
                    &&& text_in(conditions[k].member("status"@)) == Some(status)
                    &&& forall|j: int|
                        0 <= j < k ==> text_in((#[trigger] conditions[j]).member("type"@)) != Some(
                            kind,
                        )
                } {
                let k = choose|k: int|
                    {
                        &&& 0 <= k < conditions.len()
                        &&& text_in((#[trigger] conditions[k]).member("type"@)) == Some(kind)
                        &&& text_in(conditions[k].member("status"@)) == Some(status)
                        &&& forall|j: int|
                            0 <= j < k ==> text_in((#[trigger] conditions[j]).member("type"@))
                                != Some(kind)
                    };
                assert(k > 0);
                assert(rest[k - 1] == conditions[k]);
                assert forall|j: int| 0 <= j < k - 1 implies text_in(
                    (#[trigger] rest[j]).member("type"@),
                ) != Some(kind) by {
                    assert(rest[j] == conditions[j + 1]);
                }
            }
        }
    }
}

proof fn lemma_condition(cluster: JsonTree, kind: Seq<char>, status: Seq<char>)
    ensures
        condition_of(cluster, kind) == Some(status) <==> first_condition(cluster, kind, status),
{
    reveal(first_condition);
    if let Some(conditions) = list_in(cluster.inner("status"@, "conditions"@)) {
        lemma_status_in(conditions, kind, status);
    }
}

proof fn lemma_local(cluster: JsonTree)
    ensures
        is_local(cluster) <==> text_in(cluster.inner("metadata"@, "name"@)) == Some("local"@),
{
    reveal_strlit("local");
    reveal_strlit("<unnamed>");
    assert("<unnamed>"@.len() != "local"@.len());
}

/// Whether a cluster is in trouble, by the conditions it lists: the one named `local` unless its
/// `Ready` is `True`, any other unless its `Connected` is `True`, or is `False` while the agent is
/// deployed.
pub open spec fn in_trouble(cluster: JsonTree) -> bool {
    if text_in(cluster.inner("metadata"@, "name"@)) == Some("local"@) {
        !first_condition(cluster, "Ready"@, "True"@)
    } else {
        &&& !first_condition(cluster, "Connected"@, "True"@)
        &&& !(first_condition(cluster, "Connected"@, "False"@) && first_condition(
            cluster,
            "AgentDeployed"@,
            "True"@,
        ))
    }
}

proof fn lemma_in_trouble(cluster: JsonTree)
    ensures
        is_degraded(cluster) == in_trouble(cluster),
{
    lemma_local(cluster);
    lemma_condition(cluster, "Ready"@, "True"@);
    lemma_condition(cluster, "Connected"@, "True"@);
    lemma_condition(cluster, "Connected"@, "False"@);
    lemma_condition(cluster, "AgentDeployed"@, "True"@);
}

/// The check on the clusters needs attention exactly where some cluster is in trouble, and is fine
/// otherwise. Without clusters nothing is known.
pub proof fn clusters_in_trouble_need_attention(list: JsonTree, clusters: Seq<JsonTree>)
    requires
        list_in(list.member("items"@)) == Some(clusters),
    ensures
        clusters_verdict(Some(list)).status == Status::Attention <==> exists|i: int|
            0 <= i < clusters.len() && in_trouble(#[trigger] clusters[i]),
        clusters_verdict(Some(list)).status == Status::Okay <==> clusters.len() > 0 && forall|i: int|
            0 <= i < clusters.len() ==> !in_trouble(#[trigger] clusters[i]),
        clusters_verdict(Some(list)).status == Status::Unknown <==> clusters.len() == 0,
        clusters_verdict(Some(list)).name == "clusters"@,
        clusters.len() > 0 ==> clusters_verdict(Some(list)) == check_of(
            "clusters"@,
            clusters_verdict(Some(list)).status,
            joined(Seq::new(clusters.len(), |i: int| cluster_line(clusters[i])), ", "@),
        ),
{
    assert forall|i: int| 0 <= i < clusters.len() implies is_degraded(#[trigger] clusters[i])
        == in_trouble(clusters[i]) by {
        lemma_in_trouble(clusters[i]);
    }
    if any_degraded(clusters) {
        let i = choose|i: int| 0 <= i < clusters.len() && is_degraded(#[trigger] clusters[i]);
        assert(in_trouble(clusters[i]));
    }
    if exists|i: int| 0 <= i < clusters.len() && in_trouble(#[trigger] clusters[i]) {
        let i = choose|i: int| 0 <= i < clusters.len() && in_trouble(#[trigger] clusters[i]);
        assert(is_degraded(clusters[i]));
    }
}

/// A cluster is shown by its display name, else its name, with the condition that counts for it: the
/// local one with `Ready`, one that is being registered as such, any other with `Connected`.
pub proof fn clusters_show_the_condition_that_counts(
    cluster: JsonTree,
    name: Seq<char>,
    display: Option<Seq<char>>,
    status: Seq<char>,
)
    requires
        text_in(cluster.inner("metadata"@, "name"@)) == Some(name),
        text_in(cluster.inner("spec"@, "displayName"@)) == display,
    ensures
        ({
            let shown = match display {
                Some(display) => display,
                None => name,
            };
            let head = shown + " ("@ + name + ") "@;
            &&& name == "local"@ && first_condition(cluster, "Ready"@, status) ==> cluster_line(
                cluster,
            ) == head + ("Ready="@ + status)
            &&& name != "local"@ && first_condition(cluster, "Connected"@, status) && !(status
                == "False"@ && first_condition(cluster, "AgentDeployed"@, "True"@))
                ==> cluster_line(cluster) == head + ("Connected="@ + status)
            &&& name != "local"@ && first_condition(cluster, "Connected"@, "False"@)
                && first_condition(cluster, "AgentDeployed"@, "True"@) ==> cluster_line(cluster)
                == head + "registering"@
        }),
{
    lemma_local(cluster);
    lemma_condition(cluster, "Ready"@, status);
    lemma_condition(cluster, "Connected"@, status);
    lemma_condition(cluster, "Connected"@, "False"@);
    lemma_condition(cluster, "AgentDeployed"@, "True"@);
}

/// The check on the upgrade plans is fine exactly where there is a plan and none is being applied to a
/// node, and needs attention otherwise.
pub proof fn plans_at_rest_are_fine(list: JsonTree, plans: Seq<JsonTree>)
    requires
        list_in(list.member("items"@)) == Some(plans),
    ensures
        plans_verdict(Some(list)).status == Status::Okay <==> plans.len() > 0 && forall|i: int|
            0 <= i < plans.len() ==> match list_in(
                (#[trigger] plans[i]).inner("status"@, "applying"@),
            ) {
                Some(nodes) => nodes.len() == 0,
                None => true,
            },
        plans_verdict(Some(list)).status != Status::Unknown,
        plans_verdict(None).status == Status::Unknown,
        plans_verdict(Some(list)).status == Status::Okay ==> plans_verdict(Some(list)) == check_of(
            "k3s-upgrade-plan"@,
            Status::Okay,
            joined(Seq::new(plans.len(), |i: int| plan_line(plans[i])), ", "@),
        ),
        plans.len() > 0 && plans_verdict(Some(list)).status == Status::Attention ==> plans_verdict(
            Some(list),
        ) == check_of(
            "k3s-upgrade-plan"@,
            Status::Attention,
            joined(Seq::new(plans.len(), |i: int| plan_line(plans[i])), ", "@)
                + " -- upgrade in flight"@,
        ),
{
    if any_applying(plans) {
        let i = choose|i: int| 0 <= i < plans.len() && is_applying(#[trigger] plans[i]);
        assert(list_in(plans[i].inner("status"@, "applying"@)) is Some);
    }
}

/// A plan is shown with the last part of its channel's address, else with the version that it pins.
pub proof fn plans_show_what_they_track(
    plan: JsonTree,
    name: Seq<char>,
    base: Seq<char>,
    channel: Seq<char>,
    version: Seq<char>,
)
    requires
        text_in(plan.inner("metadata"@, "name"@)) == Some(name),
        list_in(plan.inner("status"@, "applying"@)) is None,
        text::free_of(channel, '/'),
    ensures
        text_in(plan.inner("spec"@, "channel"@)) == Some(base + seq!['/'] + channel) ==> plan_line(
            plan,
        ) == name + " -> "@ + channel,
        text_in(plan.inner("spec"@, "channel"@)) == Some(channel) ==> plan_line(plan) == name
            + " -> "@ + channel,
        text_in(plan.inner("spec"@, "channel"@)) is None && text_in(
            plan.inner("spec"@, "version"@),
        ) == Some(version) ==> plan_line(plan) == name + " -> "@ + ("pinned "@ + version),
{
    text::last_part_is_found(base, channel, '/');
}

/// The running chart is that of the first release named `rancher`, by the texts it has; there is none
/// where no release has the name.
pub proof fn rancher_release_is_found_by_name(releases: Seq<JsonTree>, k: int)
    ensures
        (0 <= k < releases.len() && text_in(releases[k].member("name"@)) == Some("rancher"@)
            && forall|j: int|
            0 <= j < k ==> text_in((#[trigger] releases[j]).member("name"@)) != Some("rancher"@))
            ==> match running_chart_in(Some(JsonTree::List(releases))) {
            Some(running) => {
                &&& match text_in(releases[k].member("chart"@)) {
                    Some(chart) => running.chart == chart,
                    None => running.chart.len() == 0,
                }
                &&& match text_in(releases[k].member("app_version"@)) {
                    Some(version) => running.app_version == version,
                    None => running.app_version.len() == 0,
                }
            },
            None => false,
        },
        (forall|j: int|
            0 <= j < releases.len() ==> text_in((#[trigger] releases[j]).member("name"@)) != Some(
                "rancher"@,
            )) ==> running_chart_in(Some(JsonTree::List(releases))) is None,
        running_chart_in(None) is None,
    decreases releases.len(),
{
    if releases.len() > 0 {
        let rest = releases.drop_first();
        rancher_release_is_found_by_name(rest, k - 1);
        assert(forall|j: int| 0 <= j < rest.len() ==> #[trigger] rest[j] == releases[j + 1]);
        if text_in(releases[0].member("name"@)) != Some("rancher"@) && k > 0 && k
            < releases.len() {
            assert(rest[k - 1] == releases[k]);
        }
    }
}

/// The checks on plans and clusters read their own section as JSON, without the white space around it:
/// a list of clusters in trouble needs attention, and so does a list without plans. What is no JSON, and
/// what was not collected, is unknown.
pub proof fn sections_are_read_as_json(
    sections: Map<Seq<char>, Seq<char>>,
    list: JsonTree,
    items: Seq<JsonTree>,
)
    requires
        list_in(list.member("items"@)) == Some(items),
    ensures
        sections.contains_key("clusters"@) && text_tree(trimmed(sections["clusters"@])) == Some(list)
            ==> {
            let status = management_clusters(sections).status;
            &&& status == Status::Attention <==> exists|i: int|
                0 <= i < items.len() && in_trouble(#[trigger] items[i])
            &&& status == Status::Unknown <==> items.len() == 0
        },
        sections.contains_key("plans"@) && text_tree(trimmed(sections["plans"@])) == Some(list) ==> (
        upgrade_plan(sections).status == Status::Okay <==> items.len() > 0 && forall|i: int|
            0 <= i < items.len() ==> match list_in(
                (#[trigger] items[i]).inner("status"@, "applying"@),
            ) {
                Some(nodes) => nodes.len() == 0,
                None => true,
            }),
        sections.contains_key("clusters"@) && text_tree(trimmed(sections["clusters"@])) is None
            ==> management_clusters(sections).status == Status::Unknown,
        sections.contains_key("plans"@) && text_tree(trimmed(sections["plans"@])) is None
            ==> upgrade_plan(sections).status == Status::Unknown,
        !sections.contains_key("clusters"@) ==> management_clusters(sections).status
            == Status::Unknown,
        !sections.contains_key("plans"@) ==> upgrade_plan(sections).status == Status::Unknown,
{
    clusters_in_trouble_need_attention(list, items);
    plans_at_rest_are_fine(list, items);
}

/// Whether a cluster lists no condition of a type.
pub open spec fn lists_no(cluster: JsonTree, kind: Seq<char>) -> bool {
    match list_in(cluster.inner("status"@, "conditions"@)) {
        Some(conditions) => forall|j: int|
            0 <= j < conditions.len() ==> text_in((#[trigger] conditions[j]).member("type"@))
                != Some(kind),
        None => true,
    }
}

proof fn lemma_no_status(conditions: Seq<JsonTree>, kind: Seq<char>)
    requires
        forall|j: int|
            0 <= j < conditions.len() ==> text_in((#[trigger] conditions[j]).member("type"@))
                != Some(kind),
    ensures
        status_in(conditions, kind) is None,
    decreases conditions.len(),
{
    if conditions.len() > 0 {
        let rest = conditions.drop_first();
        assert forall|j: int| 0 <= j < rest.len() implies text_in(
            (#[trigger] rest[j]).member("type"@),
        ) != Some(kind) by {
            assert(rest[j] == conditions[j + 1]);
        }
        lemma_no_status(rest, kind);
    }
}

/// A cluster that does not list the condition that counts for it is shown with a question mark in the
/// place of its status, and is in trouble.
pub proof fn unlisted_condition_is_trouble(cluster: JsonTree, name: Seq<char>)
    requires
        text_in(cluster.inner("metadata"@, "name"@)) == Some(name),
        text_in(cluster.inner("spec"@, "displayName"@)) is None,
    ensures
        name == "local"@ && lists_no(cluster, "Ready"@) ==> {
            &&& cluster_line(cluster) == name + " ("@ + name + ") "@ + ("Ready="@ + "?"@)
            &&& is_degraded(cluster)
        },
        name != "local"@ && lists_no(cluster, "Connected"@) ==> {
            &&& cluster_line(cluster) == name + " ("@ + name + ") "@ + ("Connected="@ + "?"@)
            &&& is_degraded(cluster)
        },
{
    lemma_local(cluster);
    if let Some(conditions) = list_in(cluster.inner("status"@, "conditions"@)) {
        if lists_no(cluster, "Ready"@) {
            lemma_no_status(conditions, "Ready"@);
        }
        if lists_no(cluster, "Connected"@) {
            lemma_no_status(conditions, "Connected"@);
        }
    }
}

/// A plan that is being applied to some node says so, and one that tracks nothing says that; an object
/// without a name is shown as unnamed.
pub proof fn plans_say_what_they_lack(plan: JsonTree, nodes: Seq<JsonTree>)
    requires
        text_in(plan.inner("metadata"@, "name"@)) is None,
        text_in(plan.inner("spec"@, "channel"@)) is None,
        text_in(plan.inner("spec"@, "version"@)) is None,
        list_in(plan.inner("status"@, "applying"@)) == Some(nodes),
    ensures
        nodes.len() == 0 ==> plan_line(plan) == "<unnamed>"@ + " -> "@ + "no channel or version"@,
        nodes.len() > 0 ==> plan_line(plan) == "<unnamed>"@ + " -> "@ + "no channel or version"@
            + " (applying)"@,
{
}

} // verus!
