//! The scripts that an instance runs when it first boots.

use vstd::prelude::*;

use crate::number;
use crate::number::decimal;
use crate::ports;
use crate::ports::{usable, PortMapping};
use crate::substitution::{
    fill, fill_views, filled, lacking, lemma_cannot_occur, lemma_filled_absent, lemma_filled_apart,
    lemma_filled_in_turn, lemma_filled_start, lemma_nothing_new, lemma_replaced_absent,
    lemma_replaced_by_lines, lemma_replaced_whole, replaced_placeholder_is_gone, whole_lines,
};
use crate::text;
use crate::text::{free_of, occurs_in, replaced};

verus! {

/// The shell that hardens sshd. Forwarding of TCP stays as it is, pending evidence that nobody needs
/// it. The drop-in is validated before sshd reloads, so that a bad one locks nobody out.
pub const SSHD_HARDENING: &'static str = "# AllowTcpForwarding is left alone: nothing shows yet that it can go.
sudo tee /etc/ssh/sshd_config.d/10-roa.conf > /dev/null <<'SSHEOF'
PermitRootLogin no
X11Forwarding no
AllowAgentForwarding no
LogLevel VERBOSE
SSHEOF
sudo sshd -t && sudo systemctl reload ssh
";

/// The start of every script.
pub const SCRIPT_HEAD: &'static str = "#!/bin/bash
set -e
";

/// Helm mode, up to the upgrade Plan: k3s, kubectl, Helm and the system-upgrade-controller.
pub const HELM_K3S: &'static str = "
# Single-node k3s, the latest stable release where no version is given.
curl -sfL https://get.k3s.io | INSTALL_K3S_VERSION=\"<K3S_VERSION>\" sh -s - --write-kubeconfig-mode 644
export KUBECONFIG=/etc/rancher/k3s/k3s.yaml

sudo snap install kubectl --classic
curl -fsSL https://raw.githubusercontent.com/helm/helm/main/scripts/get-helm-3 | bash

kubectl wait --for=condition=Ready node --all --timeout=300s

# The system-upgrade-controller applies k3s patches along a channel, which is always that of one
# minor: a floating channel would take the node across the upper Kubernetes bound of the Rancher
# chart, and the next upgrade of Rancher would be refused.
kubectl apply -f https://github.com/rancher/system-upgrade-controller/releases/latest/download/crd.yaml
kubectl apply -f https://github.com/rancher/system-upgrade-controller/releases/latest/download/system-upgrade-controller.yaml";

/// Helm mode, behind the upgrade Plan: cert-manager and Rancher.
pub const HELM_RANCHER: &'static str = "
helm repo add jetstack https://charts.jetstack.io
helm repo add rancher-charts \"<RANCHER_REPO>\"
helm repo update

helm upgrade --install cert-manager jetstack/cert-manager \\
  --namespace cert-manager --create-namespace \\
  --set crds.enabled=true \\
  --wait

helm upgrade --install rancher rancher-charts/rancher \\
  --namespace cattle-system --create-namespace \\
  --set hostname=\"<RANCHER_HOSTNAME>\" \\
  --set ingress.tls.source=letsEncrypt \\
  --set letsEncrypt.email=\"<LETS_ENCRYPT_EMAIL>\" \\
  --set letsEncrypt.ingress.class=traefik \\
  \"<RANCHER_VERSION>\" \"<RANCHER_BOOTSTRAP_PASSWORD>\" \\
  --wait
";

/// Docker mode, up to the extra ports.
pub const DOCKER_RUN: &'static str = "
sudo apt-get update
sudo apt-get install -y docker.io

sudo docker run -d --restart=unless-stopped \\
  -p 80:80 \\
  -p 443:443 \\";

/// Docker mode, the line behind the extra ports.
pub const DOCKER_PASSWORD: &'static str = "  -e CATTLE_BOOTSTRAP_PASSWORD=admin \\";

/// Docker mode, the end of the run.
pub const DOCKER_IMAGE: &'static str = "  --privileged \\
  \"<DOCKER_REGISTRY>\":\"<RANCHER_VERSION>\"
";

/// The template of Helm mode.
pub open spec fn helm_text() -> Seq<char> {
    SCRIPT_HEAD@ + "\n"@ + "\"<SSHD_HARDENING>\""@ + "\n"@ + HELM_K3S@ + "\n"@
        + "\"<K3S_UPGRADE_PLAN>\""@ + "\n"@ + HELM_RANCHER@
}

pub fn helm_template() -> (r: String)
    ensures
        r@ == helm_text(),
{
    let mut r = SCRIPT_HEAD.to_owned();
    r.append("\n");
    r.append("\"<SSHD_HARDENING>\"");
    r.append("\n");
    r.append(HELM_K3S);
    r.append("\n");
    r.append("\"<K3S_UPGRADE_PLAN>\"");
    r.append("\n");
    r.append(HELM_RANCHER);
    r
}

/// The template of Docker mode.
pub open spec fn docker_text() -> Seq<char> {
    SCRIPT_HEAD@ + "\n"@ + "\"<SSHD_HARDENING>\""@ + "\n"@ + DOCKER_RUN@ + "\n"@
        + "  \"<EXTRA_PORTS>\""@ + "\n"@ + DOCKER_PASSWORD@ + "\n"@ + DOCKER_IMAGE@
}

pub fn docker_template() -> (r: String)
    ensures
        r@ == docker_text(),
{
    let mut r = SCRIPT_HEAD.to_owned();
    r.append("\n");
    r.append("\"<SSHD_HARDENING>\"");
    r.append("\n");
    r.append(DOCKER_RUN);
    r.append("\n");
    r.append("  \"<EXTRA_PORTS>\"");
    r.append("\n");
    r.append(DOCKER_PASSWORD);
    r.append("\n");
    r.append(DOCKER_IMAGE);
    r
}

/// A template with the hardening of sshd in place of its placeholder and the placeholder's own line
/// break.
pub open spec fn hardened(template: Seq<char>) -> Seq<char> {
    replaced(template, "\"<SSHD_HARDENING>\"\n"@, SSHD_HARDENING@)
}

/// Puts the hardening of sshd into a template. Both modes share it: how exposed sshd is has nothing
/// to do with how Rancher is installed.
pub fn render_sshd_hardening(template: &str) -> (r: String)
    ensures
        r@ == hardened(template@),
{
    proof {
        reveal_strlit("\"<SSHD_HARDENING>\"\n");
    }
    let cs = text::chars(template);
    let hardened = text::replace(cs.as_slice(), "\"<SSHD_HARDENING>\"\n", SSHD_HARDENING);
    text::string(hardened.as_slice())
}

/// The upgrade Plan, up to its channel.
pub const PLAN_HEAD: &'static str = "kubectl apply -f - <<'PLANEOF'
apiVersion: upgrade.cattle.io/v1
kind: Plan
metadata:
  name: k3s-server
  namespace: system-upgrade
spec:
  concurrency: 1
  channel: https://update.k3s.io/v1-release/channels/";

/// The upgrade Plan, behind its channel.
pub const PLAN_TAIL: &'static str = "
  serviceAccountName: system-upgrade
  cordon: true
  nodeSelector:
    matchExpressions:
      - { key: node-role.kubernetes.io/control-plane, operator: In, values: [\"true\"] }
  upgrade:
    image: rancher/k3s-upgrade
PLANEOF";

/// The shell that applies a Plan of the system-upgrade-controller for a channel.
pub open spec fn plan_of(channel: Seq<char>) -> Seq<char> {
    PLAN_HEAD@ + channel + PLAN_TAIL@
}

/// Renders the shell that applies a Plan of the system-upgrade-controller for a channel.
pub fn k3s_upgrade_plan(channel: &str) -> (r: String)
    ensures
        r@ == plan_of(channel@),
{
    let mut r = PLAN_HEAD.to_owned();
    r.append(channel);
    r.append(PLAN_TAIL);
    r
}

/// What goes into the template of Helm mode.
#[derive(Debug)]
pub struct HelmValues {
    pub hostname: String,
    pub email: String,
    pub repo: String,
    /// The flag that picks the version of the chart.
    pub version_flag: String,
    /// The flag that sets the bootstrap password, or nothing.
    pub password_flag: String,
    /// The version of k3s, or nothing.
    pub k3s_version: String,
    /// The shell that applies the upgrade Plan, or nothing.
    pub plan: String,
}

/// The texts that go into the template of Helm mode.
#[verifier::ext_equal]
pub struct HelmValuesView {
    pub hostname: Seq<char>,
    pub email: Seq<char>,
    pub repo: Seq<char>,
    pub version_flag: Seq<char>,
    pub password_flag: Seq<char>,
    pub k3s_version: Seq<char>,
    pub plan: Seq<char>,
}

impl View for HelmValues {
    type V = HelmValuesView;

    open spec fn view(&self) -> HelmValuesView {
        HelmValuesView {
            hostname: self.hostname@,
            email: self.email@,
            repo: self.repo@,
            version_flag: self.version_flag@,
            password_flag: self.password_flag@,
            k3s_version: self.k3s_version@,
            plan: self.plan@,
        }
    }
}

/// The placeholders of Helm mode with their values, in the order in which they are filled.
pub open spec fn helm_fills(v: HelmValuesView) -> Seq<(Seq<char>, Seq<char>)> {
    seq![
        ("\"<RANCHER_HOSTNAME>\""@, v.hostname),
        ("\"<LETS_ENCRYPT_EMAIL>\""@, v.email),
        ("\"<RANCHER_REPO>\""@, v.repo),
        ("\"<RANCHER_VERSION>\""@, v.version_flag),
        ("\"<RANCHER_BOOTSTRAP_PASSWORD>\""@, v.password_flag),
        ("\"<K3S_VERSION>\""@, v.k3s_version),
        ("\"<K3S_UPGRADE_PLAN>\""@, v.plan),
    ]
}

/// Renders the script of Helm mode, without the hardening of sshd.
pub fn render_helm_user_data(v: &HelmValues) -> (r: String)
    ensures
        r@ == filled(helm_text(), helm_fills(v@)),
{
    let template = helm_template();
    let fills: [(&str, &str); 7] = [
        ("\"<RANCHER_HOSTNAME>\"", v.hostname.as_str()),
        ("\"<LETS_ENCRYPT_EMAIL>\"", v.email.as_str()),
        ("\"<RANCHER_REPO>\"", v.repo.as_str()),
        ("\"<RANCHER_VERSION>\"", v.version_flag.as_str()),
        ("\"<RANCHER_BOOTSTRAP_PASSWORD>\"", v.password_flag.as_str()),
        ("\"<K3S_VERSION>\"", v.k3s_version.as_str()),
        ("\"<K3S_UPGRADE_PLAN>\"", v.plan.as_str()),
    ];
    proof {
        lemma_helm_placeholders(v@);
        assert(fill_views(fills@) =~= helm_fills(v@));
        assert forall|i: int| 0 <= i < fills@.len() implies (#[trigger] fills@[i]).0@.len() > 0 by {
            assert(helm_fills(v@)[i].0.len() > 0);
        }
    }
    let script = fill(template.as_str(), &fills);
    text::string(script.as_slice())
}

/// The line that publishes a port, continued like every line of the run before its last.
pub open spec fn publish_line(mapping: PortMapping) -> Seq<char> {
    "  -p "@ + decimal(mapping.host as nat) + ":"@ + decimal(mapping.container as nat) + " \\\n"@
}

/// The lines that publish a list of ports.
pub open spec fn publish_lines(ports: Seq<PortMapping>) -> Seq<char>
    decreases ports.len(),
{
    if ports.len() == 0 {
        Seq::empty()
    } else {
        publish_lines(ports.drop_last()) + publish_line(ports.last())
    }
}

fn publish(ports: &[PortMapping]) -> (r: String)
    ensures
        r@ == publish_lines(ports@),
{
    let mut r = String::new();
    let mut i: usize = 0;
    while i < ports.len()
        invariant
            i <= ports.len(),
            r@ == publish_lines(ports@.take(i as int)),
        decreases ports.len() - i,
    {
        let mut line = "  -p ".to_owned();
        line.append(number::show(ports[i].host as u64).as_str());
        line.append(":");
        line.append(number::show(ports[i].container as u64).as_str());
        line.append(" \\\n");
        r.append(line.as_str());
        assert(ports@.take(i + 1).drop_last() =~= ports@.take(i as int));
        i += 1;
    }
    assert(ports@.take(i as int) =~= ports@);
    r
}

/// The placeholders of Docker mode with their values, in the order in which they are filled. The one
/// for the extra ports goes with its own line: what an empty value left of it would end the run
/// early.
pub open spec fn docker_fills(
    registry: Seq<char>,
    version: Seq<char>,
    ports: Seq<PortMapping>,
) -> Seq<(Seq<char>, Seq<char>)> {
    seq![
        ("\"<DOCKER_REGISTRY>\""@, registry),
        ("\"<RANCHER_VERSION>\""@, version),
        ("  \"<EXTRA_PORTS>\"\n"@, publish_lines(usable(ports))),
    ]
}

/// Renders the script of Docker mode, without the hardening of sshd. Of the ports, those are published
/// that the instance does not handle already.
pub fn render_docker_user_data(registry: &str, version: &str, ports: &[PortMapping]) -> (r: String)
    ensures
        r@ == filled(docker_text(), docker_fills(registry@, version@, ports@)),
{
    let template = docker_template();
    let usable = ports::usable_ports(ports);
    let published = publish(usable.as_slice());
    let fills: [(&str, &str); 3] = [
        ("\"<DOCKER_REGISTRY>\"", registry),
        ("\"<RANCHER_VERSION>\"", version),
        ("  \"<EXTRA_PORTS>\"\n", published.as_str()),
    ];
    proof {
        reveal_strlit("\"<DOCKER_REGISTRY>\"");
        reveal_strlit("\"<RANCHER_VERSION>\"");
        reveal_strlit("  \"<EXTRA_PORTS>\"\n");
        assert(fill_views(fills@) =~= docker_fills(registry@, version@, ports@));
    }
    let script = fill(template.as_str(), &fills);
    text::string(script.as_slice())
}

/// Whether a text is quoted, with no quote inside.
spec fn is_quoted(s: Seq<char>) -> bool {
    &&& s.len() >= 2
    &&& s[0] == '"'
    &&& s.last() == '"'
    &&& forall|i: int| 0 < i < s.len() - 1 ==> #[trigger] s[i] != '"'
}

/// A quoted text occurs in another only where it is that one.
proof fn lemma_quoted_apart(p: Seq<char>, s: Seq<char>)
    requires
        is_quoted(p),
        is_quoted(s),
        p != s,
    ensures
        !occurs_in(p, s),
{
    if occurs_in(p, s) {
        let at = choose|at: int| 0 <= at <= s.len() && #[trigger] p.is_prefix_of(s.skip(at));
        let rest = s.skip(at);
        let last = p.len() - 1;
        assert(rest[0] == p[0]);
        assert(s[at] == '"');
        assert(rest[last] == p[last]);
        assert(s[at + last] == '"');
        assert(p =~= s) by {
            assert(rest =~= s);
            assert(s.take(p.len() as int) =~= p);
        }
    }
}

/// The placeholders of Helm mode are quoted, differ from each other, and hold nothing that parts them
/// from what stands around them.
proof fn lemma_helm_placeholders(v: HelmValuesView)
    ensures
        lacking(helm_fills(v), '\n'),
        lacking(helm_fills(v), '='),
        lacking(helm_fills(v), ' '),
        is_quoted("\"<SSHD_HARDENING>\""@),
        forall|i: int| 0 <= i < 7 ==> is_quoted((#[trigger] helm_fills(v)[i]).0),
        forall|i: int| 0 <= i < 7 ==> (#[trigger] helm_fills(v)[i]).0 != "\"<SSHD_HARDENING>\""@,
        forall|i: int, j: int|
            0 <= i < j < 7 ==> (#[trigger] helm_fills(v)[i]).0 != (#[trigger] helm_fills(v)[j]).0,
{
    reveal_strlit("\"<SSHD_HARDENING>\"");
    reveal_strlit("\"<RANCHER_HOSTNAME>\"");
    reveal_strlit("\"<LETS_ENCRYPT_EMAIL>\"");
    reveal_strlit("\"<RANCHER_REPO>\"");
    reveal_strlit("\"<RANCHER_VERSION>\"");
    reveal_strlit("\"<RANCHER_BOOTSTRAP_PASSWORD>\"");
    reveal_strlit("\"<K3S_VERSION>\"");
    reveal_strlit("\"<K3S_UPGRADE_PLAN>\"");
    let fills = helm_fills(v);
    let lengths: Seq<nat> = seq![20, 22, 16, 19, 30, 15, 20];
    assert forall|i: int| 0 <= i < 7 implies (#[trigger] fills[i]).0.len() == lengths[i] by {}
    assert("\"<SSHD_HARDENING>\""@.len() == 18);
    // Two of the placeholders are equally long.
    assert(fills[0].0[2] == 'R');
    assert(fills[6].0[2] == 'K');
    assert forall|i: int| 0 <= i < 7 implies (#[trigger] fills[i]).0
        != "\"<SSHD_HARDENING>\""@ by {
        assert(fills[i].0.len() == lengths[i]);
    }
    assert forall|i: int, j: int| 0 <= i < j < 7 implies (#[trigger] fills[i]).0 != (
    #[trigger] fills[j]).0 by {
        assert(fills[i].0.len() == lengths[i] && fills[j].0.len() == lengths[j]);
        if fills[i].0 == fills[j].0 {
            assert(i == 0 && j == 6);
            assert(fills[i].0[2] == fills[j].0[2]);
        }
    }
}

/// The placeholder of the hardening is a line.
proof fn lemma_hardening_line()
    ensures
        "\"<SSHD_HARDENING>\"\n"@ == "\"<SSHD_HARDENING>\""@ + seq!['\n'],
        free_of("\"<SSHD_HARDENING>\""@, '\n'),
        "\n"@ == seq!['\n'],
{
    reveal_strlit("\"<SSHD_HARDENING>\"\n");
    reveal_strlit("\"<SSHD_HARDENING>\"");
    reveal_strlit("\n");
    assert("\"<SSHD_HARDENING>\"\n"@ =~= "\"<SSHD_HARDENING>\""@ + seq!['\n']);
    assert("\n"@ =~= seq!['\n']);
}

/// What stands somewhere between two texts occurs in the whole.
proof fn lemma_occurs_between(a: Seq<char>, p: Seq<char>, b: Seq<char>)
    ensures
        occurs_in(p, a + p + b),
{
    let s = a + p + b;
    assert(s.skip(a.len() as int) =~= p + b);
    assert((p + b).take(p.len() as int) =~= p);
    assert(p.is_prefix_of(s.skip(a.len() as int)));
}

/// A script whose placeholder for the hardening has a line of its own gets the hardening there.
proof fn lemma_hardened_between(a: Seq<char>, b: Seq<char>)
    requires
        whole_lines(a),
    ensures
        hardened(a + "\"<SSHD_HARDENING>\"\n"@ + b) == hardened(a) + SSHD_HARDENING@ + hardened(b),
{
    let placeholder = "\"<SSHD_HARDENING>\"\n"@;
    lemma_hardening_line();
    reveal_strlit("\"<SSHD_HARDENING>\"\n");
    assert(a + placeholder + b =~= a + (placeholder + b));
    lemma_replaced_by_lines(a, placeholder + b, "\"<SSHD_HARDENING>\""@, SSHD_HARDENING@);
    lemma_replaced_whole(placeholder, b, SSHD_HARDENING@);
    assert(hardened(a) + (SSHD_HARDENING@ + hardened(b)) =~= hardened(a) + SSHD_HARDENING@
        + hardened(b));
}

/// A value of Helm mode as it stands in the script: a placeholder in it is filled too, where it comes
/// after the value's own.
pub open spec fn standing(v: HelmValuesView, i: int) -> Seq<char> {
    filled(helm_fills(v)[i].1, helm_fills(v).skip(i + 1))
}

/// A value without placeholders that come after its own stands in the script as it is given.
pub proof fn plain_value_stands_as_given(v: HelmValuesView, i: int)
    requires
        0 <= i < 7,
        forall|j: int|
            i < j < 7 ==> !occurs_in((#[trigger] helm_fills(v)[j]).0, helm_fills(v)[i].1),
    ensures
        standing(v, i) == helm_fills(v)[i].1,
{
    let later = helm_fills(v).skip(i + 1);
    assert forall|k: int| 0 <= k < later.len() implies !occurs_in(
        (#[trigger] later[k]).0,
        helm_fills(v)[i].1,
    ) by {
        assert(later[k] == helm_fills(v)[i + 1 + k]);
    }
    lemma_filled_absent(helm_fills(v)[i].1, later);
}

/// The filling of Helm mode leaves the placeholder of the hardening, and puts each value in the place
/// of its own.
proof fn lemma_helm_filled(v: HelmValuesView)
    ensures
        filled("\"<SSHD_HARDENING>\""@, helm_fills(v)) == "\"<SSHD_HARDENING>\""@,
        forall|i: int|
            0 <= i < 7 ==> filled((#[trigger] helm_fills(v)[i]).0, helm_fills(v)) == standing(v, i),
        standing(v, 6) == v.plan,
{
    let fills = helm_fills(v);
    let hardening = "\"<SSHD_HARDENING>\""@;
    lemma_helm_placeholders(v);
    assert forall|i: int| 0 <= i < fills.len() implies !occurs_in(
        (#[trigger] fills[i]).0,
        hardening,
    ) by {
        lemma_quoted_apart(fills[i].0, hardening);
    }
    lemma_filled_absent(hardening, fills);
    assert forall|i: int| 0 <= i < 7 implies filled((#[trigger] fills[i]).0, fills) == standing(
        v,
        i,
    ) by {
        let placeholder = fills[i].0;
        let earlier = fills.take(i);
        let so_far = fills.take(i + 1);
        assert forall|j: int| 0 <= j < earlier.len() implies !occurs_in(
            (#[trigger] earlier[j]).0,
            placeholder,
        ) by {
            assert(earlier[j] == fills[j]);
            lemma_quoted_apart(fills[j].0, placeholder);
        }
        lemma_filled_absent(placeholder, earlier);
        lemma_replaced_whole(placeholder, Seq::empty(), fills[i].1);
        assert(so_far.drop_last() =~= earlier);
        assert(so_far.last() == fills[i]);
        lemma_filled_in_turn(placeholder, so_far, fills.skip(i + 1));
        assert(so_far + fills.skip(i + 1) =~= fills);
    }
    assert(fills.skip(7) =~= Seq::empty());
}

/// How the script of Helm mode is laid out.
proof fn lemma_helm_layout(v: HelmValuesView)
    ensures
        ({
            let fills = helm_fills(v);
            filled(helm_text(), fills) == filled(SCRIPT_HEAD@, fills) + seq!['\n']
                + "\"<SSHD_HARDENING>\"\n"@ + filled(HELM_K3S@, fills) + seq!['\n'] + v.plan
                + seq!['\n'] + filled(HELM_RANCHER@, fills)
        }),
{
    let fills = helm_fills(v);
    let hardening = "\"<SSHD_HARDENING>\""@;
    let plan = "\"<K3S_UPGRADE_PLAN>\""@;
    let feed = seq!['\n'];
    lemma_helm_placeholders(v);
    lemma_helm_filled(v);
    assert(fills[6].0 == plan);
    lemma_hardening_line();
    let one = SCRIPT_HEAD@;
    let two = one + feed + hardening;
    let three = two + feed + HELM_K3S@;
    let four = three + feed + plan;
    lemma_filled_apart(one, '\n', hardening, fills);
    lemma_filled_apart(two, '\n', HELM_K3S@, fills);
    lemma_filled_apart(three, '\n', plan, fills);
    lemma_filled_apart(four, '\n', HELM_RANCHER@, fills);
    assert(filled(one, fills) + feed + hardening + feed =~= filled(one, fills) + feed
        + "\"<SSHD_HARDENING>\"\n"@);
}

/// Every script of Helm mode holds the hardening of sshd, whatever it is filled with.
pub proof fn every_helm_script_is_hardened(v: HelmValuesView)
    ensures
        occurs_in(SSHD_HARDENING@, hardened(filled(helm_text(), helm_fills(v)))),
{
    let fills = helm_fills(v);
    let before = filled(SCRIPT_HEAD@, fills) + seq!['\n'];
    let behind = filled(HELM_K3S@, fills) + seq!['\n'] + v.plan + seq!['\n'] + filled(
        HELM_RANCHER@,
        fills,
    );
    lemma_helm_layout(v);
    assert(filled(helm_text(), fills) =~= before + "\"<SSHD_HARDENING>\"\n"@ + behind);
    lemma_hardened_between(before, behind);
    lemma_occurs_between(hardened(before), SSHD_HARDENING@, hardened(behind));
}

/// What the text of the upgrade Plan is around its channel.
proof fn lemma_plan_text()
    ensures
        free_of(PLAN_HEAD@, '_'),
        free_of(PLAN_TAIL@, '_'),
        ({
            let key = "  channel: https://update.k3s.io/v1-release/channels/"@;
            PLAN_HEAD@.len() >= key.len() && PLAN_HEAD@.skip(PLAN_HEAD@.len() - key.len()) == key
        }),
        PLAN_TAIL@.len() > 0,
        PLAN_TAIL@[0] == '\n',
        occurs_in("kind: Plan\n"@, PLAN_HEAD@),
{
    reveal_strlit("kind: Plan\n");
    reveal_strlit("  channel: https://update.k3s.io/v1-release/channels/");
    reveal_strlit(
        "kubectl apply -f - <<'PLANEOF'
apiVersion: upgrade.cattle.io/v1
kind: Plan
metadata:
  name: k3s-server
  namespace: system-upgrade
spec:
  concurrency: 1
  channel: https://update.k3s.io/v1-release/channels/",
    );
    reveal_strlit(
        "
  serviceAccountName: system-upgrade
  cordon: true
  nodeSelector:
    matchExpressions:
      - { key: node-role.kubernetes.io/control-plane, operator: In, values: [\"true\"] }
  upgrade:
    image: rancher/k3s-upgrade
PLANEOF",
    );
    let key = "  channel: https://update.k3s.io/v1-release/channels/"@;
    assert(PLAN_HEAD@.skip(PLAN_HEAD@.len() - key.len()) =~= key);
    assert(PLAN_HEAD@.skip(64).take(11) =~= "kind: Plan\n"@);
    assert("kind: Plan\n"@.is_prefix_of(PLAN_HEAD@.skip(64)));
}

/// The hardening leaves the upgrade Plan as it is.
proof fn lemma_plan_untouched(channel: Seq<char>)
    requires
        free_of(channel, '_'),
    ensures
        hardened(plan_of(channel) + seq!['\n']) == plan_of(channel) + seq!['\n'],
{
    lemma_plan_text();
    reveal_strlit("\"<SSHD_HARDENING>\"\n");
    let plan = plan_of(channel) + seq!['\n'];
    assert(free_of(plan, '_')) by {
        assert forall|i: int| 0 <= i < plan.len() implies #[trigger] plan[i] != '_' by {
            let head = PLAN_HEAD@.len();
            let middle = head + channel.len();
            if i < head {
                assert(plan[i] == PLAN_HEAD@[i]);
            } else if i < middle {
                assert(plan[i] == channel[i - head]);
            } else if i < plan.len() - 1 {
                assert(plan[i] == PLAN_TAIL@[i - middle]);
            }
        }
    }
    lemma_cannot_occur("\"<SSHD_HARDENING>\"\n"@, plan, 6);
    lemma_replaced_absent(plan, "\"<SSHD_HARDENING>\"\n"@, SSHD_HARDENING@);
}

/// Where a Plan is written, the script of Helm mode holds it as it was rendered.
pub proof fn plan_reaches_the_script(v: HelmValuesView, channel: Seq<char>)
    requires
        v.plan == plan_of(channel),
        free_of(channel, '_'),
    ensures
        occurs_in(plan_of(channel), hardened(filled(helm_text(), helm_fills(v)))),
{
    let fills = helm_fills(v);
    let line = "\"<SSHD_HARDENING>\""@;
    let feed = seq!['\n'];
    let plan = v.plan;
    let before = filled(SCRIPT_HEAD@, fills) + feed + "\"<SSHD_HARDENING>\"\n"@ + filled(
        HELM_K3S@,
        fills,
    ) + feed;
    let behind = filled(HELM_RANCHER@, fills);
    lemma_helm_layout(v);
    lemma_hardening_line();
    assert(filled(helm_text(), fills) =~= before + ((plan + feed) + behind));
    lemma_replaced_by_lines(before, (plan + feed) + behind, line, SSHD_HARDENING@);
    lemma_replaced_by_lines(plan + feed, behind, line, SSHD_HARDENING@);
    lemma_plan_untouched(channel);
    assert(hardened(before) + ((plan + feed) + hardened(behind)) =~= hardened(before) + plan + (feed
        + hardened(behind)));
    lemma_occurs_between(hardened(before), plan, feed + hardened(behind));
}

/// A Plan tracks the channel that it is rendered for, and that one alone: the channel ends the line.
pub proof fn plan_tracks_its_channel(channel: Seq<char>)
    ensures
        occurs_in(
            "  channel: https://update.k3s.io/v1-release/channels/"@ + channel + "\n"@,
            plan_of(channel),
        ),
{
    reveal_strlit("\n");
    lemma_plan_text();
    let key = "  channel: https://update.k3s.io/v1-release/channels/"@;
    let n = PLAN_HEAD@.len() - key.len();
    let head = PLAN_HEAD@.take(n);
    let tail = PLAN_TAIL@.skip(1);
    assert(plan_of(channel) =~= head + (key + channel + "\n"@) + tail);
    lemma_occurs_between(head, key + channel + "\n"@, tail);
}

/// What the hardening begins with, and what it lacks.
proof fn lemma_hardening_text()
    ensures
        SSHD_HARDENING@.len() > 0,
        SSHD_HARDENING@[0] == '#',
        free_of(SSHD_HARDENING@, '"'),
        free_of(SSHD_HARDENING@, 'k'),
{
    reveal_strlit(
        "# AllowTcpForwarding is left alone: nothing shows yet that it can go.
sudo tee /etc/ssh/sshd_config.d/10-roa.conf > /dev/null <<'SSHEOF'
PermitRootLogin no
X11Forwarding no
AllowAgentForwarding no
LogLevel VERBOSE
SSHEOF
sudo sshd -t && sudo systemctl reload ssh
",
    );
}

/// No placeholder of the hardening is left in any script. The shell would take it for a command and
/// stop.
pub proof fn no_hardening_placeholder_is_left(template: Seq<char>)
    ensures
        !occurs_in("\"<SSHD_HARDENING>\"\n"@, hardened(template)),
{
    reveal_strlit("\"<SSHD_HARDENING>\"\n");
    lemma_hardening_text();
    replaced_placeholder_is_gone(template, "\"<SSHD_HARDENING>\"\n"@, SSHD_HARDENING@);
}

/// The lines that publish ports are whole and hold no quote.
proof fn lemma_publish_lines(ports: Seq<PortMapping>)
    ensures
        whole_lines(publish_lines(ports)),
        free_of(publish_lines(ports), '"'),
    decreases ports.len(),
{
    if ports.len() > 0 {
        let front = publish_lines(ports.drop_last());
        let host = decimal(ports.last().host as nat);
        let container = decimal(ports.last().container as nat);
        let line = publish_line(ports.last());
        lemma_publish_lines(ports.drop_last());
        number::decimal_denotes(ports.last().host as nat);
        number::decimal_denotes(ports.last().container as nat);
        reveal_strlit("  -p ");
        reveal_strlit(":");
        reveal_strlit(" \\\n");
        assert(free_of(line, '"')) by {
            assert forall|i: int| 0 <= i < line.len() implies #[trigger] line[i] != '"' by {
                if 5 <= i < 5 + host.len() {
                    assert(line[i] == host[i - 5]);
                } else if 6 + host.len() <= i < 6 + host.len() + container.len() {
                    assert(line[i] == container[i - 6 - host.len()]);
                }
            }
        }
        let all = front + line;
        assert forall|i: int| 0 <= i < all.len() implies #[trigger] all[i] != '"' by {
            if i < front.len() {
                assert(all[i] == front[i]);
            } else {
                assert(all[i] == line[i - front.len()]);
            }
        }
    }
}

/// The start of the script of Docker mode: all of it up to the last two lines of the run.
pub open spec fn docker_start(ports: Seq<PortMapping>) -> Seq<char> {
    SCRIPT_HEAD@ + "\n"@ + SSHD_HARDENING@ + DOCKER_RUN@ + "\n"@ + publish_lines(usable(ports))
        + DOCKER_PASSWORD@ + "\n"@
}

/// The start of every script has nothing to fill, and nothing of a Plan.
proof fn lemma_head_text()
    ensures
        free_of(SCRIPT_HEAD@, '"'),
        free_of(SCRIPT_HEAD@, 'P'),
        free_of(SCRIPT_HEAD@, 'X'),
{
    reveal_strlit("#!/bin/bash
set -e
");
}

/// The parts of the template of Docker mode that are not to be filled have nothing to fill.
proof fn lemma_docker_parts()
    ensures
        free_of(DOCKER_RUN@, '"'),
        free_of(DOCKER_RUN@, 'X'),
        free_of(DOCKER_PASSWORD@, '"'),
        free_of(DOCKER_PASSWORD@, 'X'),
{
    reveal_strlit(
        "
sudo apt-get update
sudo apt-get install -y docker.io

sudo docker run -d --restart=unless-stopped \\
  -p 80:80 \\
  -p 443:443 \\",
    );
    reveal_strlit("  -e CATTLE_BOOTSTRAP_PASSWORD=admin \\");
}

/// Where two texts lack a character, so does what they make up.
proof fn lemma_sum_free(a: Seq<char>, b: Seq<char>, c: char)
    requires
        free_of(a, c),
        free_of(b, c),
    ensures
        free_of(a + b, c),
{
    assert forall|i: int| 0 <= i < (a + b).len() implies #[trigger] (a + b)[i] != c by {
        if i < a.len() {
            assert((a + b)[i] == a[i]);
        } else {
            assert((a + b)[i] == b[i - a.len()]);
        }
    }
}

/// How the script of Docker mode is laid out once the image is filled in.
proof fn lemma_docker_image(registry: Seq<char>, version: Seq<char>)
    ensures
        ({
            let fills = seq![
                ("\"<DOCKER_REGISTRY>\""@, registry),
                ("\"<RANCHER_VERSION>\""@, version),
            ];
            filled(docker_text(), fills) == SCRIPT_HEAD@ + seq!['\n'] + "\"<SSHD_HARDENING>\""@
                + seq!['\n'] + DOCKER_RUN@ + seq!['\n'] + "  \"<EXTRA_PORTS>\""@ + seq!['\n']
                + DOCKER_PASSWORD@ + seq!['\n'] + filled(DOCKER_IMAGE@, fills)
        }),
{
    let fills = seq![("\"<DOCKER_REGISTRY>\""@, registry), ("\"<RANCHER_VERSION>\""@, version)];
    let hardening = "\"<SSHD_HARDENING>\""@;
    let extra = "  \"<EXTRA_PORTS>\""@;
    let feed = seq!['\n'];
    reveal_strlit("\"<DOCKER_REGISTRY>\"");
    reveal_strlit("\"<RANCHER_VERSION>\"");
    reveal_strlit("\"<SSHD_HARDENING>\"");
    reveal_strlit("  \"<EXTRA_PORTS>\"");
    lemma_hardening_line();
    lemma_head_text();
    lemma_docker_parts();
    assert(lacking(fills, '\n'));
    lemma_cannot_occur(fills[0].0, SCRIPT_HEAD@, 0);
    lemma_cannot_occur(fills[1].0, SCRIPT_HEAD@, 0);
    lemma_filled_absent(SCRIPT_HEAD@, fills);
    lemma_cannot_occur(fills[0].0, hardening, 3);
    lemma_cannot_occur(fills[1].0, hardening, 10);
    lemma_filled_absent(hardening, fills);
    lemma_cannot_occur(fills[0].0, DOCKER_RUN@, 0);
    lemma_cannot_occur(fills[1].0, DOCKER_RUN@, 0);
    lemma_filled_absent(DOCKER_RUN@, fills);
    lemma_cannot_occur(fills[0].0, extra, 2);
    lemma_cannot_occur(fills[1].0, extra, 4);
    lemma_filled_absent(extra, fills);
    lemma_cannot_occur(fills[0].0, DOCKER_PASSWORD@, 0);
    lemma_cannot_occur(fills[1].0, DOCKER_PASSWORD@, 0);
    lemma_filled_absent(DOCKER_PASSWORD@, fills);
    let one = SCRIPT_HEAD@;
    let two = one + feed + hardening;
    let three = two + feed + DOCKER_RUN@;
    let four = three + feed + extra;
    let five = four + feed + DOCKER_PASSWORD@;
    lemma_filled_apart(one, '\n', hardening, fills);
    lemma_filled_apart(two, '\n', DOCKER_RUN@, fills);
    lemma_filled_apart(three, '\n', extra, fills);
    lemma_filled_apart(four, '\n', DOCKER_PASSWORD@, fills);
    lemma_filled_apart(five, '\n', DOCKER_IMAGE@, fills);
}

/// How the script of Docker mode begins once the extra ports are published.
proof fn lemma_docker_ports(
    registry: Seq<char>,
    version: Seq<char>,
    ports: Seq<PortMapping>,
) -> (rest: Seq<char>)
    ensures
        filled(docker_text(), docker_fills(registry, version, ports)) == SCRIPT_HEAD@ + seq!['\n']
            + "\"<SSHD_HARDENING>\"\n"@ + (DOCKER_RUN@ + seq!['\n'] + publish_lines(usable(ports))
            + DOCKER_PASSWORD@ + seq!['\n'] + rest),
        rest == replaced(
            filled(
                DOCKER_IMAGE@,
                seq![("\"<DOCKER_REGISTRY>\""@, registry), ("\"<RANCHER_VERSION>\""@, version)],
            ),
            "  \"<EXTRA_PORTS>\"\n"@,
            publish_lines(usable(ports)),
        ),
{
    let fills = docker_fills(registry, version, ports);
    let image = seq![("\"<DOCKER_REGISTRY>\""@, registry), ("\"<RANCHER_VERSION>\""@, version)];
    let hardening = "\"<SSHD_HARDENING>\""@;
    let extra = "  \"<EXTRA_PORTS>\""@;
    let pattern = "  \"<EXTRA_PORTS>\"\n"@;
    let published = publish_lines(usable(ports));
    let feed = seq!['\n'];
    reveal_strlit("\"<SSHD_HARDENING>\"");
    reveal_strlit("  \"<EXTRA_PORTS>\"");
    reveal_strlit("  \"<EXTRA_PORTS>\"\n");
    assert(pattern =~= extra + feed);
    lemma_hardening_line();
    lemma_head_text();
    lemma_docker_parts();
    lemma_docker_image(registry, version);
    assert(fills.drop_last() =~= image);
    let before = SCRIPT_HEAD@ + feed + hardening + feed + DOCKER_RUN@ + feed;
    let password = DOCKER_PASSWORD@ + feed;
    let behind = filled(DOCKER_IMAGE@, image);
    let rest = replaced(behind, pattern, published);
    assert(filled(docker_text(), image) =~= before + (pattern + (password + behind)));
    lemma_sum_free(SCRIPT_HEAD@, feed, 'X');
    lemma_sum_free(SCRIPT_HEAD@ + feed, hardening, 'X');
    lemma_sum_free(SCRIPT_HEAD@ + feed + hardening, feed, 'X');
    lemma_sum_free(SCRIPT_HEAD@ + feed + hardening + feed, DOCKER_RUN@, 'X');
    lemma_sum_free(SCRIPT_HEAD@ + feed + hardening + feed + DOCKER_RUN@, feed, 'X');
    lemma_cannot_occur(pattern, before, 5);
    lemma_replaced_absent(before, pattern, published);
    lemma_replaced_by_lines(before, pattern + (password + behind), extra, published);
    lemma_replaced_whole(pattern, password + behind, published);
    lemma_sum_free(DOCKER_PASSWORD@, feed, 'X');
    lemma_cannot_occur(pattern, password, 5);
    lemma_replaced_absent(password, pattern, published);
    lemma_replaced_by_lines(password, behind, extra, published);
    assert(before + (published + (password + rest)) =~= SCRIPT_HEAD@ + feed
        + "\"<SSHD_HARDENING>\"\n"@ + (DOCKER_RUN@ + feed + published + DOCKER_PASSWORD@ + feed
        + rest));
    rest
}

/// How the script of Docker mode is laid out once it is hardened.
proof fn lemma_docker_hardened(
    registry: Seq<char>,
    version: Seq<char>,
    ports: Seq<PortMapping>,
) -> (rest: Seq<char>)
    ensures
        hardened(filled(docker_text(), docker_fills(registry, version, ports))) == docker_start(ports)
            + hardened(rest),
        rest == replaced(
            filled(
                DOCKER_IMAGE@,
                seq![("\"<DOCKER_REGISTRY>\""@, registry), ("\"<RANCHER_VERSION>\""@, version)],
            ),
            "  \"<EXTRA_PORTS>\"\n"@,
            publish_lines(usable(ports)),
        ),
{
    let line = "\"<SSHD_HARDENING>\""@;
    let pattern = "\"<SSHD_HARDENING>\"\n"@;
    let published = publish_lines(usable(ports));
    let feed = seq!['\n'];
    let rest = lemma_docker_ports(registry, version, ports);
    reveal_strlit("\"<SSHD_HARDENING>\"\n");
    lemma_hardening_line();
    lemma_head_text();
    lemma_docker_parts();
    lemma_publish_lines(usable(ports));
    let head = SCRIPT_HEAD@ + feed;
    let run = DOCKER_RUN@ + feed + published + DOCKER_PASSWORD@ + feed;
    lemma_hardened_between(head, run + rest);
    lemma_sum_free(SCRIPT_HEAD@, feed, '"');
    lemma_cannot_occur(pattern, head, 0);
    lemma_replaced_absent(head, pattern, SSHD_HARDENING@);
    lemma_sum_free(DOCKER_RUN@, feed, '"');
    lemma_sum_free(DOCKER_RUN@ + feed, published, '"');
    lemma_sum_free(DOCKER_RUN@ + feed + published, DOCKER_PASSWORD@, '"');
    lemma_sum_free(DOCKER_RUN@ + feed + published + DOCKER_PASSWORD@, feed, '"');
    lemma_cannot_occur(pattern, run, 0);
    lemma_replaced_absent(run, pattern, SSHD_HARDENING@);
    lemma_replaced_by_lines(run, rest, line, SSHD_HARDENING@);
    assert(head + SSHD_HARDENING@ + (run + hardened(rest)) =~= docker_start(ports) + hardened(rest));
    rest
}

/// Whatever is filled in, the script of Docker mode is hardened, and its run stays one command: the
/// published ports follow those of Rancher, each on a continued line, and the rest of the run follows
/// them at once.
pub proof fn docker_run_stays_one_command(
    registry: Seq<char>,
    version: Seq<char>,
    ports: Seq<PortMapping>,
)
    ensures
        docker_start(ports).is_prefix_of(
            hardened(filled(docker_text(), docker_fills(registry, version, ports))),
        ),
        occurs_in(
            SSHD_HARDENING@,
            hardened(filled(docker_text(), docker_fills(registry, version, ports))),
        ),
{
    let hard = hardened(filled(docker_text(), docker_fills(registry, version, ports)));
    let rest = lemma_docker_hardened(registry, version, ports);
    let start = docker_start(ports);
    let head = SCRIPT_HEAD@ + "\n"@;
    let tail = DOCKER_RUN@ + "\n"@ + publish_lines(usable(ports)) + DOCKER_PASSWORD@ + "\n"@
        + hardened(rest);
    assert(hard.take(start.len() as int) =~= start);
    assert(hard =~= head + SSHD_HARDENING@ + tail);
    lemma_occurs_between(head, SSHD_HARDENING@, tail);
}

/// The lines that publish a list of ports hold that of each.
proof fn lemma_published(ports: Seq<PortMapping>, i: int) -> (around: (Seq<char>, Seq<char>))
    requires
        0 <= i < ports.len(),
    ensures
        publish_lines(ports) == around.0 + publish_line(ports[i]) + around.1,
    decreases ports.len(),
{
    let front = ports.drop_last();
    let line = publish_line(ports[i]);
    if i == ports.len() - 1 {
        let before = publish_lines(front);
        assert(before + line =~= before + line + Seq::<char>::empty());
        (before, Seq::empty())
    } else {
        let (before, behind) = lemma_published(front, i);
        let last = publish_line(ports.last());
        assert(before + line + behind + last =~= before + line + (behind + last));
        (before, behind + last)
    }
}

/// Every usable port is published by the run of Docker mode, whatever else is filled in.
pub proof fn every_usable_port_is_published(
    registry: Seq<char>,
    version: Seq<char>,
    ports: Seq<PortMapping>,
    i: int,
)
    requires
        0 <= i < usable(ports).len(),
    ensures
        occurs_in(
            "  -p "@ + decimal(usable(ports)[i].host as nat) + ":"@ + decimal(
                usable(ports)[i].container as nat,
            ) + " \\\n"@,
            hardened(filled(docker_text(), docker_fills(registry, version, ports))),
        ),
{
    let script = hardened(filled(docker_text(), docker_fills(registry, version, ports)));
    let start = docker_start(ports);
    let line = publish_line(usable(ports)[i]);
    let head = SCRIPT_HEAD@ + "\n"@ + SSHD_HARDENING@ + DOCKER_RUN@ + "\n"@;
    let tail = DOCKER_PASSWORD@ + "\n"@;
    docker_run_stays_one_command(registry, version, ports);
    let (before, behind) = lemma_published(usable(ports), i);
    let rest = script.skip(start.len() as int);
    assert(script =~= start + rest);
    assert(script =~= (head + before) + line + (behind + tail + rest));
    lemma_occurs_between(head + before, line, behind + tail + rest);
}

/// Whether a text holds no Plan.
pub open spec fn holds_no_plan(s: Seq<char>) -> bool {
    !occurs_in("kind: Plan"@, s)
}

/// Whether a part of a template has nothing to fill, and nothing of a Plan.
spec fn is_plain(s: Seq<char>) -> bool {
    free_of(s, '"') && free_of(s, 'P')
}

proof fn lemma_plain(s: Seq<char>, v: HelmValuesView)
    requires
        is_plain(s),
    ensures
        filled(s, helm_fills(v)) == s,
        holds_no_plan(s),
{
    let fills = helm_fills(v);
    lemma_helm_placeholders(v);
    assert forall|i: int| 0 <= i < fills.len() implies !occurs_in((#[trigger] fills[i]).0, s) by {
        assert(is_quoted(fills[i].0));
        lemma_cannot_occur(fills[i].0, s, 0);
    }
    lemma_filled_absent(s, fills);
    reveal_strlit("kind: Plan");
    lemma_cannot_occur("kind: Plan"@, s, 6);
}

/// Two texts without a Plan hold none together either, parted by a character that none holds, or by a
/// blank where the one does not end, or the other does not begin, like the halves of its heading.
proof fn lemma_no_plan_across(x: Seq<char>, c: char, y: Seq<char>)
    requires
        holds_no_plan(x),
        holds_no_plan(y),
        c == '\n' || c == '=' || c == ' ',
        c == ' ' ==> (x.len() > 0 ==> x.last() != ':') || (y.len() > 0 ==> y[0] != 'P'),
    ensures
        holds_no_plan(x + seq![c] + y),
{
    let q = "kind: Plan"@;
    let s = x + seq![c] + y;
    let n = x.len() as int;
    reveal_strlit("kind: Plan");
    if occurs_in(q, s) {
        let at = choose|at: int| 0 <= at <= s.len() && #[trigger] q.is_prefix_of(s.skip(at));
        let rest = s.skip(at);
        assert forall|k: int| 0 <= k < q.len() implies q[k] == #[trigger] s[at + k] by {
            assert(rest[k] == q[k]);
        }
        if at > n {
            let i = at - n - 1;
            assert(rest =~= y.skip(i));
            assert(q.is_prefix_of(y.skip(i)));
        } else if at + q.len() <= n {
            assert forall|k: int| 0 <= k < q.len() implies q[k] == x.skip(at)[k] by {
                assert(s[at + k] == x[at + k]);
            }
            assert(x.skip(at).take(q.len() as int) =~= q);
            assert(q.is_prefix_of(x.skip(at)));
        } else {
            assert(s[at + (n - at)] == c);
            assert(q[n - at] == c);
            assert(n - at == 5);
            assert(s[at + 4] == x[n - 1]);
            assert(s[at + 6] == y[0]);
        }
    }
}

/// A step along the template of Helm mode: two parts that come to no Plan come to none together.
proof fn lemma_no_plan_step(x: Seq<char>, c: char, y: Seq<char>, v: HelmValuesView)
    requires
        holds_no_plan(filled(x, helm_fills(v))),
        holds_no_plan(filled(y, helm_fills(v))),
        c == '\n' || c == '=' || c == ' ',
        ({
            let before = filled(x, helm_fills(v));
            let behind = filled(y, helm_fills(v));
            c == ' ' ==> (before.len() > 0 ==> before.last() != ':') || (behind.len() > 0
                ==> behind[0] != 'P')
        }),
    ensures
        holds_no_plan(filled(x + seq![c] + y, helm_fills(v))),
{
    lemma_helm_placeholders(v);
    lemma_filled_apart(x, c, y, helm_fills(v));
    lemma_no_plan_across(filled(x, helm_fills(v)), c, filled(y, helm_fills(v)));
}

/// The parts of the template around the k3s version.
proof fn lemma_k3s_parts() -> (parts: (Seq<char>, Seq<char>))
    ensures
        is_plain(parts.0),
        is_plain(parts.1),
        "INSTALL_K3S_VERSION"@.is_suffix_of(parts.0),
        HELM_K3S@ == parts.0 + seq!['='] + "\"<K3S_VERSION>\""@ + seq![' '] + parts.1,
{
    reveal_strlit("\"<K3S_VERSION>\"");
    reveal_strlit("INSTALL_K3S_VERSION");
    reveal_strlit(
        "
# Single-node k3s, the latest stable release where no version is given.
curl -sfL https://get.k3s.io | INSTALL_K3S_VERSION=\"<K3S_VERSION>\" sh -s - --write-kubeconfig-mode 644
export KUBECONFIG=/etc/rancher/k3s/k3s.yaml

sudo snap install kubectl --classic
curl -fsSL https://raw.githubusercontent.com/helm/helm/main/scripts/get-helm-3 | bash

kubectl wait --for=condition=Ready node --all --timeout=300s

# The system-upgrade-controller applies k3s patches along a channel, which is always that of one
# minor: a floating channel would take the node across the upper Kubernetes bound of the Rancher
# chart, and the next upgrade of Rancher would be refused.
kubectl apply -f https://github.com/rancher/system-upgrade-controller/releases/latest/download/crd.yaml
kubectl apply -f https://github.com/rancher/system-upgrade-controller/releases/latest/download/system-upgrade-controller.yaml",
    );
    let s = HELM_K3S@;
    assert(s[123] == '=');
    assert(s.subrange(124, 139) =~= "\"<K3S_VERSION>\""@);
    assert(s[139] == ' ');
    let parts = (s.take(123), s.skip(140));
    assert forall|i: int| 0 <= i < 123 implies s[i] != '"' && s[i] != 'P' by {}
    assert forall|i: int| 140 <= i < s.len() implies s[i] != '"' && s[i] != 'P' by {}
    assert("INSTALL_K3S_VERSION"@ =~= parts.0.subrange(104, 123));
    assert(s =~= parts.0 + seq!['='] + s.subrange(124, 139) + seq![' '] + parts.1);
    parts
}

/// The parts of the template around the values of the Rancher chart.
proof fn lemma_rancher_parts() -> (parts: Seq<Seq<char>>)
    ensures
        parts.len() == 5,
        forall|i: int| 0 <= i < 5 ==> is_plain(#[trigger] parts[i]),
        parts[0].len() > 0 && parts[0].last() != ':',
        parts[3].len() > 0 && parts[3].last() == ' ',
        "helm repo add rancher-charts"@.is_suffix_of(parts[0]),
        "--set hostname"@.is_suffix_of(parts[1]),
        "--set letsEncrypt.email"@.is_suffix_of(parts[2]),
        "\\\n"@.is_prefix_of(parts[4]),
        HELM_RANCHER@ == parts[0] + seq![' '] + "\"<RANCHER_REPO>\""@ + seq!['\n'] + parts[1]
            + seq!['='] + "\"<RANCHER_HOSTNAME>\""@ + seq![' '] + parts[2] + seq!['=']
            + "\"<LETS_ENCRYPT_EMAIL>\""@ + seq![' '] + parts[3] + seq![' ']
            + "\"<RANCHER_VERSION>\""@ + seq![' '] + "\"<RANCHER_BOOTSTRAP_PASSWORD>\""@ + seq![' ']
            + parts[4],
{
    reveal_strlit("\"<RANCHER_REPO>\"");
    reveal_strlit("\"<RANCHER_HOSTNAME>\"");
    reveal_strlit("\"<LETS_ENCRYPT_EMAIL>\"");
    reveal_strlit("\"<RANCHER_VERSION>\"");
    reveal_strlit("\"<RANCHER_BOOTSTRAP_PASSWORD>\"");
    reveal_strlit(
        "
helm repo add jetstack https://charts.jetstack.io
helm repo add rancher-charts \"<RANCHER_REPO>\"
helm repo update

helm upgrade --install cert-manager jetstack/cert-manager \\
  --namespace cert-manager --create-namespace \\
  --set crds.enabled=true \\
  --wait

helm upgrade --install rancher rancher-charts/rancher \\
  --namespace cattle-system --create-namespace \\
  --set hostname=\"<RANCHER_HOSTNAME>\" \\
  --set ingress.tls.source=letsEncrypt \\
  --set letsEncrypt.email=\"<LETS_ENCRYPT_EMAIL>\" \\
  --set letsEncrypt.ingress.class=traefik \\
  \"<RANCHER_VERSION>\" \"<RANCHER_BOOTSTRAP_PASSWORD>\" \\
  --wait
",
    );
    let s = HELM_RANCHER@;
    assert(s[79] == ' ' && s[96] == '\n' && s[382] == '=' && s[403] == ' ' && s[472] == '=');
    assert(s[495] == ' ' && s[543] == ' ' && s[563] == ' ' && s[594] == ' ');
    assert(s.subrange(80, 96) =~= "\"<RANCHER_REPO>\""@);
    assert(s.subrange(383, 403) =~= "\"<RANCHER_HOSTNAME>\""@);
    assert(s.subrange(473, 495) =~= "\"<LETS_ENCRYPT_EMAIL>\""@);
    assert(s.subrange(544, 563) =~= "\"<RANCHER_VERSION>\""@);
    assert(s.subrange(564, 594) =~= "\"<RANCHER_BOOTSTRAP_PASSWORD>\""@);
    let parts = seq![
        s.take(79),
        s.subrange(97, 382),
        s.subrange(404, 472),
        s.subrange(496, 543),
        s.skip(595),
    ];
    assert(is_plain(parts[0]));
    assert(is_plain(parts[1]));
    assert(is_plain(parts[2]));
    assert(is_plain(parts[3]));
    assert(is_plain(parts[4]));
    reveal_strlit("helm repo add rancher-charts");
    reveal_strlit("--set hostname");
    reveal_strlit("--set letsEncrypt.email");
    reveal_strlit("\\\n");
    assert("helm repo add rancher-charts"@ =~= parts[0].subrange(51, 79));
    assert("--set hostname"@ =~= parts[1].subrange(271, 285));
    assert("--set letsEncrypt.email"@ =~= parts[2].subrange(45, 68));
    assert("\\\n"@ =~= parts[4].take(2));
    assert(s =~= parts[0] + seq![' '] + s.subrange(80, 96) + seq!['\n'] + parts[1] + seq!['=']
        + s.subrange(383, 403) + seq![' '] + parts[2] + seq!['='] + s.subrange(473, 495) + seq![' ']
        + parts[3] + seq![' '] + s.subrange(544, 563) + seq![' '] + s.subrange(564, 594) + seq![' ']
        + parts[4]);
    parts
}

/// Without a Plan in the values as they stand, there is none in the part that installs k3s.
proof fn lemma_k3s_no_plan(v: HelmValuesView)
    requires
        holds_no_plan(standing(v, 5)),
    ensures
        holds_no_plan(filled(HELM_K3S@, helm_fills(v))),
{
    let version = "\"<K3S_VERSION>\""@;
    let (before, behind) = lemma_k3s_parts();
    lemma_helm_filled(v);
    lemma_plain(before, v);
    lemma_plain(behind, v);
    assert(helm_fills(v)[5].0 == version);
    lemma_no_plan_step(before, '=', version, v);
    lemma_no_plan_step(before + seq!['='] + version, ' ', behind, v);
}

/// Without a Plan in the values as they stand, there is none in the part that installs Rancher.
proof fn lemma_rancher_no_plan(v: HelmValuesView)
    requires
        forall|i: int| 0 <= i < 5 ==> holds_no_plan(#[trigger] standing(v, i)),
        standing(v, 4).len() > 0 ==> standing(v, 4)[0] != 'P',
    ensures
        holds_no_plan(filled(HELM_RANCHER@, helm_fills(v))),
{
    let fills = helm_fills(v);
    let hostname = fills[0].0;
    let email = fills[1].0;
    let repo = fills[2].0;
    let version = fills[3].0;
    let password = fills[4].0;
    let parts = lemma_rancher_parts();
    lemma_helm_filled(v);
    assert forall|i: int| 0 <= i < 5 implies filled(#[trigger] parts[i], fills) == parts[i]
        && holds_no_plan(parts[i]) by {
        lemma_plain(parts[i], v);
    }
    assert(is_plain(parts[2]) && is_plain(parts[3]) && is_plain(parts[4]));
    assert(holds_no_plan(standing(v, 0)) && holds_no_plan(standing(v, 1)));
    assert(holds_no_plan(standing(v, 2)) && holds_no_plan(standing(v, 3)));
    assert(holds_no_plan(standing(v, 4)));
    let a = parts[0];
    lemma_no_plan_step(a, ' ', repo, v);
    let b = a + seq![' '] + repo;
    lemma_no_plan_step(b, '\n', parts[1], v);
    let c = b + seq!['\n'] + parts[1];
    lemma_no_plan_step(c, '=', hostname, v);
    let d = c + seq!['='] + hostname;
    lemma_no_plan_step(d, ' ', parts[2], v);
    let e = d + seq![' '] + parts[2];
    lemma_no_plan_step(e, '=', email, v);
    let f = e + seq!['='] + email;
    lemma_no_plan_step(f, ' ', parts[3], v);
    let g = f + seq![' '] + parts[3];
    lemma_helm_placeholders(v);
    lemma_filled_apart(f, ' ', parts[3], fills);
    assert(filled(g, fills).last() == parts[3].last());
    lemma_no_plan_step(g, ' ', version, v);
    let h = g + seq![' '] + version;
    lemma_no_plan_step(h, ' ', password, v);
    let i = h + seq![' '] + password;
    lemma_no_plan_step(i, ' ', parts[4], v);
}

/// Where no Plan is to be written, the script of Helm mode holds none, provided that no other value
/// holds one as it stands in the script. The flag for the password, which follows a blank, must not
/// begin like the word itself.
pub proof fn script_without_plan(v: HelmValuesView)
    requires
        v.plan == Seq::<char>::empty(),
        forall|i: int| 0 <= i < 6 ==> holds_no_plan(#[trigger] standing(v, i)),
        v.password_flag.len() > 0 ==> v.password_flag[0] != 'P' && v.password_flag[0] != '"',
    ensures
        holds_no_plan(hardened(filled(helm_text(), helm_fills(v)))),
{
    let fills = helm_fills(v);
    let feed = seq!['\n'];
    let hardening = "\"<SSHD_HARDENING>\""@;
    let plan = "\"<K3S_UPGRADE_PLAN>\""@;
    lemma_helm_placeholders(v);
    lemma_helm_filled(v);
    lemma_hardening_line();
    lemma_head_text();
    reveal_strlit("kind: Plan");
    assert(helm_fills(v)[6].0 == plan);
    let later = fills.skip(5);
    assert forall|k: int| 0 <= k < later.len() implies (#[trigger] later[k]).0.len() > 0 && (
    v.password_flag.len() > 0 ==> later[k].0[0] != v.password_flag[0]) by {
        assert(later[k] == fills[5 + k]);
        assert(is_quoted(fills[5 + k].0));
    }
    lemma_filled_start(v.password_flag, later);
    assert(holds_no_plan(standing(v, 5)));
    lemma_k3s_no_plan(v);
    lemma_rancher_no_plan(v);
    lemma_plain(SCRIPT_HEAD@, v);
    assert(holds_no_plan(hardening)) by {
        reveal_strlit("\"<SSHD_HARDENING>\"");
        lemma_cannot_occur("kind: Plan"@, hardening, 6);
    }
    assert(holds_no_plan(v.plan)) by {
        lemma_cannot_occur("kind: Plan"@, v.plan, 6);
    }
    let one = SCRIPT_HEAD@;
    lemma_no_plan_step(one, '\n', hardening, v);
    let two = one + feed + hardening;
    lemma_no_plan_step(two, '\n', HELM_K3S@, v);
    let three = two + feed + HELM_K3S@;
    lemma_no_plan_step(three, '\n', plan, v);
    let four = three + feed + plan;
    lemma_no_plan_step(four, '\n', HELM_RANCHER@, v);
    lemma_hardening_text();
    lemma_nothing_new(
        "kind: Plan"@,
        filled(helm_text(), fills),
        "\"<SSHD_HARDENING>\"\n"@,
        SSHD_HARDENING@,
    );
}

/// Whether a text holds none of the placeholders of Helm mode.
pub open spec fn holds_no_placeholder(s: Seq<char>) -> bool {
    &&& !occurs_in("\"<RANCHER_HOSTNAME>\""@, s)
    &&& !occurs_in("\"<LETS_ENCRYPT_EMAIL>\""@, s)
    &&& !occurs_in("\"<RANCHER_REPO>\""@, s)
    &&& !occurs_in("\"<RANCHER_VERSION>\""@, s)
    &&& !occurs_in("\"<RANCHER_BOOTSTRAP_PASSWORD>\""@, s)
    &&& !occurs_in("\"<K3S_VERSION>\""@, s)
    &&& !occurs_in("\"<K3S_UPGRADE_PLAN>\""@, s)
    &&& !occurs_in("\"<SSHD_HARDENING>\""@, s)
}

/// What lacks the character that parts two texts occurs in them together only where it occurs in one.
proof fn lemma_not_across(q: Seq<char>, x: Seq<char>, c: char, y: Seq<char>)
    requires
        q.len() > 0,
        free_of(q, c),
        !occurs_in(q, x),
        !occurs_in(q, y),
    ensures
        !occurs_in(q, x + seq![c] + y),
{
    let s = x + seq![c] + y;
    let n = x.len() as int;
    if occurs_in(q, s) {
        let at = choose|at: int| 0 <= at <= s.len() && #[trigger] q.is_prefix_of(s.skip(at));
        let rest = s.skip(at);
        assert forall|k: int| 0 <= k < q.len() implies q[k] == #[trigger] s[at + k] by {
            assert(rest[k] == q[k]);
        }
        if at > n {
            assert(rest =~= y.skip(at - n - 1));
            assert(q.is_prefix_of(y.skip(at - n - 1)));
        } else if at + q.len() <= n {
            assert forall|k: int| 0 <= k < q.len() implies q[k] == x.skip(at)[k] by {
                assert(s[at + k] == x[at + k]);
            }
            assert(x.skip(at).take(q.len() as int) =~= q);
            assert(q.is_prefix_of(x.skip(at)));
        } else {
            assert(s[at + (n - at)] == c);
            assert(q[n - at] == c);
        }
    }
}

/// What occurs in a part of a text occurs in the text.
proof fn lemma_occurs_within(p: Seq<char>, a: Seq<char>, s: Seq<char>, b: Seq<char>)
    requires
        occurs_in(p, s),
    ensures
        occurs_in(p, a + s + b),
{
    let i = choose|i: int| 0 <= i <= s.len() && #[trigger] p.is_prefix_of(s.skip(i));
    let all = a + s + b;
    let n = a.len() + i;
    assert forall|k: int| 0 <= k < p.len() implies p[k] == all.skip(n)[k] by {
        assert(s.skip(i)[k] == p[k]);
    }
    assert(all.skip(n).take(p.len() as int) =~= p);
    assert(p.is_prefix_of(all.skip(n)));
}

/// A text that ends with a flag, then the flag's value and what parts it from the rest: the flag with
/// its value occurs in it.
proof fn lemma_flag_holds(
    flag: Seq<char>,
    before: Seq<char>,
    c: char,
    value: Seq<char>,
    d: char,
    behind: Seq<char>,
)
    requires
        flag.is_suffix_of(before),
    ensures
        occurs_in(
            flag + seq![c] + value + seq![d],
            before + seq![c] + value + seq![d] + behind,
        ),
{
    let n = before.len() - flag.len();
    let head = before.take(n);
    assert(before.subrange(n, before.len() as int) == flag);
    assert(before =~= head + flag);
    let p = flag + seq![c] + value + seq![d];
    assert(before + seq![c] + value + seq![d] + behind =~= head + p + behind);
    lemma_occurs_between(head, p, behind);
}

/// With values that hold no placeholder, the part that installs k3s holds its version as given.
proof fn lemma_k3s_given(v: HelmValuesView)
    requires
        holds_no_placeholder(v.k3s_version),
    ensures
        occurs_in(
            "INSTALL_K3S_VERSION"@ + seq!['='] + v.k3s_version + seq![' '],
            filled(HELM_K3S@, helm_fills(v)),
        ),
        !occurs_in("\"<SSHD_HARDENING>\""@, filled(HELM_K3S@, helm_fills(v))),
{
    let fills = helm_fills(v);
    let version = "\"<K3S_VERSION>\""@;
    let hardening = "\"<SSHD_HARDENING>\""@;
    let (before, behind) = lemma_k3s_parts();
    lemma_helm_placeholders(v);
    lemma_helm_filled(v);
    lemma_plain(before, v);
    lemma_plain(behind, v);
    assert(fills[5].0 == version);
    plain_value_stands_as_given(v, 5);
    lemma_filled_apart(before, '=', version, fills);
    lemma_filled_apart(before + seq!['='] + version, ' ', behind, fills);
    lemma_flag_holds("INSTALL_K3S_VERSION"@, before, '=', v.k3s_version, ' ', behind);
    reveal_strlit("\"<SSHD_HARDENING>\"");
    lemma_cannot_occur(hardening, before, 0);
    lemma_cannot_occur(hardening, behind, 0);
    lemma_not_across(hardening, before, '=', v.k3s_version);
    lemma_not_across(hardening, before + seq!['='] + v.k3s_version, ' ', behind);
}

/// The part that installs Rancher, of its plain parts and the values between them.
spec fn rancher_text(parts: Seq<Seq<char>>, v: HelmValuesView) -> Seq<char> {
    parts[0] + seq![' '] + v.repo + seq!['\n'] + parts[1] + seq!['='] + v.hostname + seq![' ']
        + parts[2] + seq!['='] + v.email + seq![' '] + parts[3] + seq![' '] + v.version_flag
        + seq![' '] + v.password_flag + seq![' '] + parts[4]
}

/// With values that hold no placeholder, the part that installs Rancher has each as given.
proof fn lemma_rancher_filled(v: HelmValuesView, parts: Seq<Seq<char>>)
    requires
        holds_no_placeholder(v.hostname),
        holds_no_placeholder(v.email),
        holds_no_placeholder(v.repo),
        holds_no_placeholder(v.version_flag),
        holds_no_placeholder(v.password_flag),
        parts.len() == 5,
        forall|i: int| 0 <= i < 5 ==> is_plain(#[trigger] parts[i]),
        HELM_RANCHER@ == parts[0] + seq![' '] + "\"<RANCHER_REPO>\""@ + seq!['\n'] + parts[1]
            + seq!['='] + "\"<RANCHER_HOSTNAME>\""@ + seq![' '] + parts[2] + seq!['=']
            + "\"<LETS_ENCRYPT_EMAIL>\""@ + seq![' '] + parts[3] + seq![' ']
            + "\"<RANCHER_VERSION>\""@ + seq![' '] + "\"<RANCHER_BOOTSTRAP_PASSWORD>\""@ + seq![' ']
            + parts[4],
    ensures
        filled(HELM_RANCHER@, helm_fills(v)) == rancher_text(parts, v),
{
    let fills = helm_fills(v);
    lemma_helm_placeholders(v);
    lemma_helm_filled(v);
    assert forall|i: int| 0 <= i < 5 implies filled(#[trigger] parts[i], fills) == parts[i] by {
        lemma_plain(parts[i], v);
    }
    plain_value_stands_as_given(v, 0);
    plain_value_stands_as_given(v, 1);
    plain_value_stands_as_given(v, 2);
    plain_value_stands_as_given(v, 3);
    plain_value_stands_as_given(v, 4);
    let (hostname, email, repo) = (fills[0].0, fills[1].0, fills[2].0);
    let (version, password) = (fills[3].0, fills[4].0);
    let a = parts[0] + seq![' '] + repo;
    let b = a + seq!['\n'] + parts[1];
    let c = b + seq!['='] + hostname;
    let d = c + seq![' '] + parts[2];
    let e = d + seq!['='] + email;
    let f = e + seq![' '] + parts[3];
    let g = f + seq![' '] + version;
    let h = g + seq![' '] + password;
    lemma_filled_apart(parts[0], ' ', repo, fills);
    lemma_filled_apart(a, '\n', parts[1], fills);
    lemma_filled_apart(b, '=', hostname, fills);
    lemma_filled_apart(c, ' ', parts[2], fills);
    lemma_filled_apart(d, '=', email, fills);
    lemma_filled_apart(e, ' ', parts[3], fills);
    lemma_filled_apart(f, ' ', version, fills);
    lemma_filled_apart(g, ' ', password, fills);
    lemma_filled_apart(h, ' ', parts[4], fills);
}

/// A text of plain parts and values holds the placeholder of the hardening only where a value does.
proof fn lemma_rancher_unhardened(v: HelmValuesView, parts: Seq<Seq<char>>)
    requires
        holds_no_placeholder(v.hostname),
        holds_no_placeholder(v.email),
        holds_no_placeholder(v.repo),
        holds_no_placeholder(v.version_flag),
        holds_no_placeholder(v.password_flag),
        parts.len() == 5,
        forall|i: int| 0 <= i < 5 ==> is_plain(#[trigger] parts[i]),
    ensures
        !occurs_in("\"<SSHD_HARDENING>\""@, rancher_text(parts, v)),
{
    let hardening = "\"<SSHD_HARDENING>\""@;
    reveal_strlit("\"<SSHD_HARDENING>\"");
    assert forall|i: int| 0 <= i < 5 implies !occurs_in(hardening, #[trigger] parts[i]) by {
        lemma_cannot_occur(hardening, parts[i], 0);
    }
    let a = parts[0] + seq![' '] + v.repo;
    let b = a + seq!['\n'] + parts[1];
    let c = b + seq!['='] + v.hostname;
    let d = c + seq![' '] + parts[2];
    let e = d + seq!['='] + v.email;
    let f = e + seq![' '] + parts[3];
    let g = f + seq![' '] + v.version_flag;
    let h = g + seq![' '] + v.password_flag;
    lemma_not_across(hardening, parts[0], ' ', v.repo);
    lemma_not_across(hardening, a, '\n', parts[1]);
    lemma_not_across(hardening, b, '=', v.hostname);
    lemma_not_across(hardening, c, ' ', parts[2]);
    lemma_not_across(hardening, d, '=', v.email);
    lemma_not_across(hardening, e, ' ', parts[3]);
    lemma_not_across(hardening, f, ' ', v.version_flag);
    lemma_not_across(hardening, g, ' ', v.password_flag);
    lemma_not_across(hardening, h, ' ', parts[4]);
}

/// The part that installs Rancher holds each value behind its flag.
proof fn lemma_rancher_flags(v: HelmValuesView, parts: Seq<Seq<char>>)
    requires
        parts.len() == 5,
        parts[3].len() > 0 && parts[3].last() == ' ',
        "helm repo add rancher-charts"@.is_suffix_of(parts[0]),
        "--set hostname"@.is_suffix_of(parts[1]),
        "--set letsEncrypt.email"@.is_suffix_of(parts[2]),
        "\\\n"@.is_prefix_of(parts[4]),
    ensures
        ({
            let part = rancher_text(parts, v);
            &&& occurs_in("helm repo add rancher-charts"@ + seq![' '] + v.repo + seq!['\n'], part)
            &&& occurs_in("--set hostname"@ + seq!['='] + v.hostname + seq![' '], part)
            &&& occurs_in("--set letsEncrypt.email"@ + seq!['='] + v.email + seq![' '], part)
            &&& occurs_in("  "@ + v.version_flag + seq![' '] + v.password_flag + " \\\n"@, part)
        }),
{
    let whole = rancher_text(parts, v);
    let flags = seq![' '] + v.version_flag + seq![' '] + v.password_flag + seq![' '] + parts[4];
    let tls = seq!['='] + v.email + seq![' '] + parts[3] + flags;
    let host = seq!['='] + v.hostname + seq![' '] + parts[2] + tls;
    let b = parts[0] + seq![' '] + v.repo + seq!['\n'] + parts[1];
    let d = b + seq!['='] + v.hostname + seq![' '] + parts[2];
    let f = d + seq!['='] + v.email + seq![' '] + parts[3];
    assert(whole =~= f + flags);
    assert(whole =~= d + tls);
    assert(whole =~= b + host);
    let adding = "helm repo add rancher-charts"@;
    lemma_flag_holds(adding, parts[0], ' ', v.repo, '\n', parts[1] + host);
    assert(b + host =~= parts[0] + seq![' '] + v.repo + seq!['\n'] + (parts[1] + host));
    let named = "--set hostname"@;
    lemma_suffix_behind(named, parts[0] + seq![' '] + v.repo + seq!['\n'], parts[1]);
    lemma_flag_holds(named, b, '=', v.hostname, ' ', parts[2] + tls);
    assert(b + host =~= b + seq!['='] + v.hostname + seq![' '] + (parts[2] + tls));
    let mail = "--set letsEncrypt.email"@;
    lemma_suffix_behind(mail, b + seq!['='] + v.hostname + seq![' '], parts[2]);
    lemma_flag_holds(mail, d, '=', v.email, ' ', parts[3] + flags);
    assert(d + tls =~= d + seq!['='] + v.email + seq![' '] + (parts[3] + flags));
    lemma_rancher_line(f, v.version_flag, v.password_flag, parts[4]);
}

/// The flags that share a line have it for themselves.
proof fn lemma_rancher_line(
    before: Seq<char>,
    version: Seq<char>,
    password: Seq<char>,
    behind: Seq<char>,
)
    requires
        before.len() > 0 && before.last() == ' ',
        "\\\n"@.is_prefix_of(behind),
    ensures
        occurs_in(
            "  "@ + version + seq![' '] + password + " \\\n"@,
            before + (seq![' '] + version + seq![' '] + password + seq![' '] + behind),
        ),
{
    reveal_strlit("  ");
    reveal_strlit(" \\\n");
    reveal_strlit("\\\n");
    let line = "  "@ + version + seq![' '] + password + " \\\n"@;
    let head = before.drop_last();
    let tail = behind.skip(2);
    assert(behind.take(2) =~= "\\\n"@);
    assert(behind =~= "\\\n"@ + tail);
    assert(before =~= head + seq![' ']);
    assert(before + (seq![' '] + version + seq![' '] + password + seq![' '] + behind) =~= head + line
        + tail);
    lemma_occurs_between(head, line, tail);
}

/// With values that hold no placeholder, the part that installs Rancher holds each behind its flag.
proof fn lemma_rancher_given(v: HelmValuesView)
    requires
        holds_no_placeholder(v.hostname),
        holds_no_placeholder(v.email),
        holds_no_placeholder(v.repo),
        holds_no_placeholder(v.version_flag),
        holds_no_placeholder(v.password_flag),
    ensures
        ({
            let part = filled(HELM_RANCHER@, helm_fills(v));
            &&& occurs_in("helm repo add rancher-charts"@ + seq![' '] + v.repo + seq!['\n'], part)
            &&& occurs_in("--set hostname"@ + seq!['='] + v.hostname + seq![' '], part)
            &&& occurs_in("--set letsEncrypt.email"@ + seq!['='] + v.email + seq![' '], part)
            &&& occurs_in("  "@ + v.version_flag + seq![' '] + v.password_flag + " \\\n"@, part)
            &&& !occurs_in("\"<SSHD_HARDENING>\""@, part)
        }),
{
    let parts = lemma_rancher_parts();
    lemma_rancher_filled(v, parts);
    lemma_rancher_unhardened(v, parts);
    lemma_rancher_flags(v, parts);
}

/// What ends a text ends it behind another too.
proof fn lemma_suffix_behind(p: Seq<char>, a: Seq<char>, s: Seq<char>)
    requires
        p.is_suffix_of(s),
    ensures
        p.is_suffix_of(a + s),
{
    let all = a + s;
    assert(p =~= all.subrange(all.len() - p.len(), all.len() as int));
}

/// Where no value holds a placeholder, the script of Helm mode holds each of them behind what it is for:
/// the version of k3s, the chart repository, the hostname, the address for certificates, and the flags
/// for the version of the chart and for the password, which share a line of their own.
pub proof fn helm_script_holds_its_values(v: HelmValuesView)
    requires
        holds_no_placeholder(v.hostname),
        holds_no_placeholder(v.email),
        holds_no_placeholder(v.repo),
        holds_no_placeholder(v.version_flag),
        holds_no_placeholder(v.password_flag),
        holds_no_placeholder(v.k3s_version),
        !occurs_in("\"<SSHD_HARDENING>\""@, v.plan),
    ensures
        ({
            let script = hardened(filled(helm_text(), helm_fills(v)));
            &&& occurs_in("helm repo add rancher-charts "@ + v.repo + "\n"@, script)
            &&& occurs_in("--set hostname="@ + v.hostname + " "@, script)
            &&& occurs_in("--set letsEncrypt.email="@ + v.email + " "@, script)
            &&& occurs_in("INSTALL_K3S_VERSION="@ + v.k3s_version + " "@, script)
            &&& occurs_in(
                "  "@ + v.version_flag + " "@ + v.password_flag + " \\\n"@,
                script,
            )
        }),
{
    let fills = helm_fills(v);
    let hardening = "\"<SSHD_HARDENING>\""@;
    let pattern = "\"<SSHD_HARDENING>\"\n"@;
    let feed = seq!['\n'];
    lemma_helm_layout(v);
    lemma_k3s_given(v);
    lemma_rancher_given(v);
    lemma_hardening_line();
    reveal_strlit("\"<SSHD_HARDENING>\"");
    let k3s = filled(HELM_K3S@, fills);
    let rancher = filled(HELM_RANCHER@, fills);
    let start = filled(SCRIPT_HEAD@, fills) + feed;
    let rest = k3s + feed + v.plan + feed + rancher;
    lemma_not_across(hardening, k3s, '\n', v.plan);
    lemma_not_across(hardening, k3s + feed + v.plan, '\n', rancher);
    if occurs_in(pattern, rest) {
        let at = choose|at: int| 0 <= at <= rest.len() && #[trigger] pattern.is_prefix_of(
            rest.skip(at),
        );
        let tail = rest.skip(at);
        assert(tail.take(pattern.len() as int) =~= pattern);
        assert(tail.take(hardening.len() as int) =~= hardening) by {
            assert forall|i: int| 0 <= i < hardening.len() implies tail[i] == hardening[i] by {
                assert(tail.take(pattern.len() as int)[i] == pattern[i]);
            }
        }
        assert(hardening.is_prefix_of(rest.skip(at)));
    }
    lemma_replaced_absent(rest, pattern, SSHD_HARDENING@);
    assert(filled(helm_text(), fills) =~= start + pattern + rest);
    lemma_hardened_between(start, rest);
    let script = hardened(filled(helm_text(), fills));
    let head = hardened(start) + SSHD_HARDENING@;
    let middle = feed + v.plan + feed;
    let none = Seq::<char>::empty();
    assert(script =~= head + k3s + (middle + rancher));
    assert(script =~= (head + k3s + middle) + rancher + none);
    reveal_strlit(" ");
    reveal_strlit("helm repo add rancher-charts");
    reveal_strlit("helm repo add rancher-charts ");
    reveal_strlit("--set hostname");
    reveal_strlit("--set hostname=");
    reveal_strlit("--set letsEncrypt.email");
    reveal_strlit("--set letsEncrypt.email=");
    reveal_strlit("INSTALL_K3S_VERSION");
    reveal_strlit("INSTALL_K3S_VERSION=");
    assert(" "@ =~= seq![' ']);
    assert("helm repo add rancher-charts "@ =~= "helm repo add rancher-charts"@ + seq![' ']);
    assert("--set hostname="@ =~= "--set hostname"@ + seq!['=']);
    assert("--set letsEncrypt.email="@ =~= "--set letsEncrypt.email"@ + seq!['=']);
    assert("INSTALL_K3S_VERSION="@ =~= "INSTALL_K3S_VERSION"@ + seq!['=']);
    lemma_occurs_within("INSTALL_K3S_VERSION="@ + v.k3s_version + " "@, head, k3s, middle + rancher);
    let before = head + k3s + middle;
    lemma_occurs_within(
        "helm repo add rancher-charts "@ + v.repo + "\n"@,
        before,
        rancher,
        none,
    );
    lemma_occurs_within("--set hostname="@ + v.hostname + " "@, before, rancher, none);
    lemma_occurs_within("--set letsEncrypt.email="@ + v.email + " "@, before, rancher, none);
    lemma_occurs_within(
        "  "@ + v.version_flag + " "@ + v.password_flag + " \\\n"@,
        before,
        rancher,
        none,
    );
}

/// An upgrade Plan holds no placeholder of the hardening.
pub proof fn lemma_plan_unhardened(channel: Seq<char>)
    requires
        free_of(channel, '_'),
    ensures
        !occurs_in("\"<SSHD_HARDENING>\""@, plan_of(channel)),
{
    reveal_strlit("\"<SSHD_HARDENING>\"");
    lemma_plan_text();
    lemma_sum_free(PLAN_HEAD@, channel, '_');
    lemma_sum_free(PLAN_HEAD@ + channel, PLAN_TAIL@, '_');
    lemma_cannot_occur("\"<SSHD_HARDENING>\""@, plan_of(channel), 6);
}

/// Where neither the registry nor the version holds a placeholder, the run of Docker mode ends with the
/// image of that registry and version, privileged.
pub proof fn docker_runs_the_image_asked_for(
    registry: Seq<char>,
    version: Seq<char>,
    ports: Seq<PortMapping>,
)
    requires
        !occurs_in("\"<RANCHER_VERSION>\""@, registry),
        !occurs_in("\"<EXTRA_PORTS>\""@, registry),
        !occurs_in("\"<EXTRA_PORTS>\""@, version),
        !occurs_in("\"<SSHD_HARDENING>\""@, registry),
        !occurs_in("\"<SSHD_HARDENING>\""@, version),
    ensures
        hardened(filled(docker_text(), docker_fills(registry, version, ports))) == docker_start(ports)
            + ("  --privileged \\\n  "@ + registry + ":"@ + version + "\n"@),
{
    let fills = seq![("\"<DOCKER_REGISTRY>\""@, registry), ("\"<RANCHER_VERSION>\""@, version)];
    let rest = lemma_docker_hardened(registry, version, ports);
    let image = registry + seq![':'] + version;
    let head = "  --privileged \\\n "@;
    let none = Seq::<char>::empty();
    let ending = head + seq![' '] + image + seq!['\n'] + none;
    lemma_image_filled(registry, version);
    assert(filled(DOCKER_IMAGE@, fills) == ending);
    reveal_strlit("  --privileged \\\n ");
    reveal_strlit("  --privileged \\\n  ");
    reveal_strlit(":");
    reveal_strlit("\n");
    lemma_image_lacks("\"<EXTRA_PORTS>\""@, registry, version);
    lemma_image_lacks("\"<SSHD_HARDENING>\""@, registry, version);
    reveal_strlit("\"<EXTRA_PORTS>\"");
    reveal_strlit("  \"<EXTRA_PORTS>\"\n");
    let extra = "  \"<EXTRA_PORTS>\"\n"@;
    assert(extra =~= "  "@ + "\"<EXTRA_PORTS>\""@ + "\n"@) by {
        reveal_strlit("  ");
    }
    if occurs_in(extra, ending) {
        lemma_part_occurs("  "@, "\"<EXTRA_PORTS>\""@, "\n"@, ending);
    }
    lemma_replaced_absent(ending, extra, publish_lines(usable(ports)));
    lemma_hardening_line();
    let pattern = "\"<SSHD_HARDENING>\"\n"@;
    if occurs_in(pattern, ending) {
        assert(none + "\"<SSHD_HARDENING>\""@ + seq!['\n'] =~= pattern);
        lemma_part_occurs(none, "\"<SSHD_HARDENING>\""@, seq!['\n'], ending);
    }
    lemma_replaced_absent(ending, pattern, SSHD_HARDENING@);
    assert(ending =~= "  --privileged \\\n  "@ + registry + ":"@ + version + "\n"@);
}

/// Where a text occurs, so does a part of it.
proof fn lemma_part_occurs(a: Seq<char>, p: Seq<char>, b: Seq<char>, s: Seq<char>)
    requires
        occurs_in(a + p + b, s),
    ensures
        occurs_in(p, s),
{
    let whole = a + p + b;
    let at = choose|at: int| 0 <= at <= s.len() && #[trigger] whole.is_prefix_of(s.skip(at));
    let n = at + a.len();
    assert(s.skip(at).take(whole.len() as int) =~= whole);
    assert forall|k: int| 0 <= k < p.len() implies p[k] == s.skip(n)[k] by {
        assert(s.skip(at).take(whole.len() as int)[a.len() + k] == whole[a.len() + k]);
    }
    assert(s.skip(n).take(p.len() as int) =~= p);
    assert(p.is_prefix_of(s.skip(n)));
}

/// The end of the run, with the image filled in.
proof fn lemma_image_filled(registry: Seq<char>, version: Seq<char>)
    requires
        !occurs_in("\"<RANCHER_VERSION>\""@, registry),
    ensures
        filled(
            DOCKER_IMAGE@,
            seq![("\"<DOCKER_REGISTRY>\""@, registry), ("\"<RANCHER_VERSION>\""@, version)],
        ) == "  --privileged \\\n "@ + seq![' '] + (registry + seq![':'] + version) + seq!['\n']
            + Seq::<char>::empty(),
{
    let fills = seq![("\"<DOCKER_REGISTRY>\""@, registry), ("\"<RANCHER_VERSION>\""@, version)];
    let first = fills[0].0;
    let second = fills[1].0;
    let head = "  --privileged \\\n "@;
    let none = Seq::<char>::empty();
    reveal_strlit("\"<DOCKER_REGISTRY>\"");
    reveal_strlit("\"<RANCHER_VERSION>\"");
    reveal_strlit("  --privileged \\\n ");
    reveal_strlit(
        "  --privileged \\
  \"<DOCKER_REGISTRY>\":\"<RANCHER_VERSION>\"
",
    );
    let image = first + seq![':'] + second;
    assert(DOCKER_IMAGE@ =~= head + seq![' '] + image + seq!['\n'] + none);
    assert(lacking(fills, ' ') && lacking(fills, ':') && lacking(fills, '\n'));
    lemma_filled_apart(head + seq![' '] + image, '\n', none, fills);
    lemma_filled_apart(head, ' ', image, fills);
    lemma_filled_apart(first, ':', second, fills);
    assert(free_of(head, '"'));
    lemma_cannot_occur(first, head, 0);
    lemma_cannot_occur(second, head, 0);
    lemma_filled_absent(head, fills);
    lemma_cannot_occur(first, none, 0);
    lemma_cannot_occur(second, none, 0);
    lemma_filled_absent(none, fills);
    assert(is_quoted(first) && is_quoted(second));
    assert(first[2] == 'D' && second[2] == 'R');
    lemma_quoted_apart(first, second);
    reveal_with_fuel(filled, 3);
    let one = fills.drop_last();
    assert(one.drop_last() =~= Seq::empty());
    assert(one.last() == fills[0]);
    lemma_replaced_whole(first, none, registry);
    lemma_replaced_absent(registry, second, version);
    lemma_replaced_absent(second, first, registry);
    lemma_replaced_whole(second, none, version);
}

/// The end of the run holds a quoted placeholder only where the registry or the version does.
proof fn lemma_image_lacks(q: Seq<char>, registry: Seq<char>, version: Seq<char>)
    requires
        q == "\"<EXTRA_PORTS>\""@ || q == "\"<SSHD_HARDENING>\""@,
        !occurs_in(q, registry),
        !occurs_in(q, version),
    ensures
        !occurs_in(
            q,
            "  --privileged \\\n "@ + seq![' '] + (registry + seq![':'] + version) + seq!['\n']
                + Seq::<char>::empty(),
        ),
{
    let head = "  --privileged \\\n "@;
    let none = Seq::<char>::empty();
    reveal_strlit("\"<EXTRA_PORTS>\"");
    reveal_strlit("\"<SSHD_HARDENING>\"");
    reveal_strlit("  --privileged \\\n ");
    lemma_cannot_occur(q, head, 0);
    lemma_cannot_occur(q, none, 0);
    lemma_not_across(q, registry, ':', version);
    lemma_not_across(q, head, ' ', registry + seq![':'] + version);
    lemma_not_across(q, head + seq![' '] + (registry + seq![':'] + version), '\n', none);
}

/// The shell for the upgrade Plan applies a Plan.
pub proof fn plan_is_of_its_kind(channel: Seq<char>)
    ensures
        occurs_in("kind: Plan\n"@, plan_of(channel)),
{
    lemma_plan_text();
    assert(plan_of(channel) =~= Seq::<char>::empty() + PLAN_HEAD@ + (channel + PLAN_TAIL@));
    lemma_occurs_within("kind: Plan\n"@, Seq::empty(), PLAN_HEAD@, channel + PLAN_TAIL@);
}

/// What occurs in a text occurs wherever that text does.
pub proof fn lemma_occurs_through(p: Seq<char>, q: Seq<char>, s: Seq<char>)
    requires
        occurs_in(p, q),
        occurs_in(q, s),
    ensures
        occurs_in(p, s),
{
    let at = choose|at: int| 0 <= at <= s.len() && #[trigger] q.is_prefix_of(s.skip(at));
    let head = s.take(at);
    let tail = s.skip(at + q.len());
    assert(s.skip(at).take(q.len() as int) =~= q);
    assert(s =~= head + q + tail) by {
        assert forall|i: int| 0 <= i < s.len() implies s[i] == (head + q + tail)[i] by {
            if at <= i < at + q.len() {
                assert(s.skip(at).take(q.len() as int)[i - at] == s[i]);
            }
        }
    }
    lemma_occurs_within(p, head, q, tail);
}

} // verus!
