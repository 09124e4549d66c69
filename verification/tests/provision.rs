use roa::cidr::{own_cidr, parse_cidr, ssh_cidr, SshCidr};
use roa::ports::{parse_port_mapping, usable_ports, PortMapping};
use roa::user_data::{
    docker_template, helm_template, k3s_upgrade_plan, render_docker_user_data,
    render_sshd_hardening,
};
use roa::versions::{default_k3s_version, k3s_minor_channel};

#[test]
fn reduces_a_pinned_k3s_release_to_its_minor_channel() {
    assert_eq!(k3s_minor_channel("v1.36.3+k3s1").as_deref(), Some("v1.36"));
    assert_eq!(k3s_minor_channel("1.35.5+k3s1").as_deref(), Some("v1.35"));
    assert_eq!(k3s_minor_channel(" v1.32.3+k3s1 ").as_deref(), Some("v1.32"));
}

#[test]
fn refuses_to_guess_a_channel_from_an_unpinned_version() {
    // An empty version is what an unpinned instance has; a Plan would then guess at a channel.
    assert_eq!(k3s_minor_channel(""), None);
    assert_eq!(k3s_minor_channel("v1.36"), None);
    assert_eq!(k3s_minor_channel("stable"), None);
    assert_eq!(k3s_minor_channel("latest"), None);
    assert_eq!(k3s_minor_channel("v1.x.3"), None);
}

#[test]
fn every_default_k3s_version_yields_a_channel() {
    for rancher in ["2.11", "2.12", "2.13", "2.14", "2.15", "2.16"] {
        let k3s = default_k3s_version(rancher).expect("mapped");
        assert!(
            k3s_minor_channel(k3s).is_some(),
            "{} -> {} has no channel",
            rancher,
            k3s
        );
    }
}

#[test]
fn the_plan_pins_the_channel_and_never_a_floating_one() {
    let plan = k3s_upgrade_plan("v1.36");
    assert!(plan.contains("https://update.k3s.io/v1-release/channels/v1.36"));
    assert!(!plan.contains("channels/stable"));
    assert!(!plan.contains("channels/latest"));
    assert!(plan.contains("namespace: system-upgrade"));
    assert!(plan.contains("image: rancher/k3s-upgrade"));
}

fn mapping(spec: &str) -> PortMapping {
    parse_port_mapping(spec).expect("a port mapping")
}

#[test]
fn a_bare_port_maps_to_itself() {
    // The form a NodePort has to take: it cannot see the host's mapping, so only matching numbers
    // let a URL built from the cluster work.
    assert_eq!(mapping("30443"), PortMapping { host: 30443, container: 30443 });
    assert_eq!(mapping(" 30443 "), PortMapping { host: 30443, container: 30443 });
}

#[test]
fn a_pair_maps_host_to_container() {
    assert_eq!(mapping("8080:80"), PortMapping { host: 8080, container: 80 });
}

#[test]
fn refuses_anything_that_is_not_a_port() {
    for spec in ["", "0", "http", "8080:", "8080:0", ":80", "70000", "8080:https"] {
        assert!(parse_port_mapping(spec).is_err(), "{} parsed", spec);
    }
}

#[test]
fn drops_ports_the_instance_already_handles() {
    // A repeated rule is rejected by EC2 outright, and a second `-p 443:...` stops the container
    // starting -- so a duplicate must never reach either.
    let asked = vec![
        mapping("443"),
        mapping("30443"),
        mapping("30443"),
        mapping("22"),
        mapping("80:8080"),
        mapping("8080:80"),
    ];

    assert_eq!(usable_ports(&asked), vec![mapping("30443"), mapping("8080:80")]);
}

#[test]
fn docker_user_data_publishes_only_rancher_by_default() {
    let script = render_docker_user_data("rancher/rancher", "head", &[]);

    assert!(script.contains("-p 80:80"));
    assert!(script.contains("-p 443:443"));
    assert!(!script.contains("<EXTRA_PORTS>"));
    // The placeholder took its own line with it, so the run stays one continued command. A blank
    // line here would truncate it at :443.
    assert!(script.contains("  -p 443:443 \\\n  -e CATTLE_BOOTSTRAP_PASSWORD"));
}

#[test]
fn docker_user_data_publishes_every_port_asked_for() {
    let script = render_docker_user_data(
        "rancher/rancher",
        "head",
        &[mapping("30443"), mapping("8080:80")],
    );

    assert!(script.contains("  -p 30443:30443 \\\n"));
    assert!(script.contains("  -p 8080:80 \\\n"));
    assert!(script.contains("  -p 443:443 \\\n  -p 30443:30443"));
    assert!(script.contains("-e CATTLE_BOOTSTRAP_PASSWORD"));
}

#[test]
fn docker_user_data_never_leaves_a_blank_line_in_the_run() {
    for ports in [vec![], vec![mapping("30443")]] {
        let script = render_docker_user_data("rancher/rancher", "head", &ports);
        let run = script
            .split("sudo docker run -d")
            .nth(1)
            .expect("a docker run block");
        let block: Vec<&str> = run
            .lines()
            .take_while(|line| line.ends_with('\\') || line.contains("--privileged"))
            .collect();

        assert!(
            block.iter().all(|line| !line.trim().is_empty()),
            "blank line inside the docker run for {:?}",
            ports
        );
        assert!(block.last().expect("a last line").contains("--privileged"));
    }
}

#[test]
fn a_cidr_needs_a_prefix_length() {
    assert!(parse_cidr("68.104.236.252").is_err());
}

#[test]
fn a_valid_cidr_round_trips() {
    assert_eq!(parse_cidr("68.104.236.252/32").unwrap(), "68.104.236.252/32");
    assert_eq!(parse_cidr("0.0.0.0/0").unwrap(), "0.0.0.0/0");
    assert_eq!(parse_cidr("10.0.0.0/8").unwrap(), "10.0.0.0/8");
}

#[test]
fn refuses_a_prefix_wider_than_the_address_space() {
    assert!(parse_cidr("10.0.0.0/33").is_err());
}

#[test]
fn refuses_something_that_is_not_an_address() {
    assert!(parse_cidr("my-house/32").is_err());
    assert!(parse_cidr("10.0.0/24").is_err());
    assert!(parse_cidr("999.0.0.1/32").is_err());
}

#[test]
fn user_data_hardens_sshd_and_validates_before_reloading() {
    let rendered = render_sshd_hardening(&helm_template());
    let rendered = rendered.as_str();

    assert!(rendered.contains("PermitRootLogin no"));
    assert!(rendered.contains("X11Forwarding no"));
    assert!(rendered.contains("AllowAgentForwarding no"));
    // The validate-then-reload pair is the part that keeps a bad drop-in from locking the instance
    // out, so assert the ordering rather than just the presence of each half.
    assert!(rendered.contains("sudo sshd -t && sudo systemctl reload ssh"));
    // Deliberately unset. The comment names the directive, so check no *active* line sets it rather
    // than that the word is absent.
    assert!(
        !rendered
            .lines()
            .any(|l| l.trim_start().starts_with("AllowTcpForwarding")),
        "AllowTcpForwarding is set as a directive; it is meant to stay unset pending evidence"
    );
    // Applied as a heredoc; an unbalanced marker would break provisioning.
    assert_eq!(rendered.matches("SSHEOF").count(), 2);
}

#[test]
fn user_data_carries_the_plan_placeholder() {
    assert!(helm_template().contains("\"<K3S_UPGRADE_PLAN>\""));
}

#[test]
fn rendering_user_data_substitutes_or_removes_the_plan() {
    let template = helm_template();

    let channel = k3s_minor_channel("v1.36.3+k3s1").unwrap();
    let with_plan = template.replace("\"<K3S_UPGRADE_PLAN>\"", &k3s_upgrade_plan(&channel));
    assert!(with_plan.contains("kind: Plan"));
    assert!(with_plan.contains("channels/v1.36"));
    assert!(!with_plan.contains("<K3S_UPGRADE_PLAN>"));
    // The Plan is applied as a heredoc; an unbalanced marker would break provisioning.
    assert_eq!(with_plan.matches("PLANEOF").count(), 2);

    // Unpinned k3s leaves no Plan behind at all.
    let without_plan = template.replace("\"<K3S_UPGRADE_PLAN>\"", "");
    assert!(!without_plan.contains("kind: Plan"));
    assert!(!without_plan.contains("<K3S_UPGRADE_PLAN>"));
}

#[test]
fn both_modes_are_born_with_the_same_hardened_sshd() {
    let helm = render_sshd_hardening(&helm_template());
    let docker = render_sshd_hardening(&render_docker_user_data("rancher/rancher", "head", &[]));

    for script in [&helm, &docker] {
        assert!(script.contains("PermitRootLogin no"));
        assert!(script.contains("X11Forwarding no"));
        assert!(script.contains("AllowAgentForwarding no"));
        assert!(script.contains("LogLevel VERBOSE"));
        assert!(script.contains("sudo sshd -t && sudo systemctl reload ssh"));
        // An unsubstituted placeholder would reach the box as a bare quoted string and abort the
        // script under `set -e`.
        assert!(!script.contains("<SSHD_HARDENING>"));
        assert_eq!(script.matches("SSHEOF").count(), 2);
    }
}

#[test]
fn every_template_carries_the_hardening_placeholder() {
    // A new template that forgets the placeholder is the failure this guards: it provisions fine
    // and quietly hands out stock sshd.
    assert!(helm_template().contains("\"<SSHD_HARDENING>\""));
    assert!(docker_template().contains("\"<SSHD_HARDENING>\""));
}

#[test]
fn self_survives_cidr_validation() {
    assert_eq!(parse_cidr("self").unwrap(), "self");
    assert_eq!(parse_cidr("  SELF  ").unwrap(), "self");
}

#[test]
fn resolving_a_literal_cidr_asks_nobody() {
    // Only `self` is worth a network round trip; anything else is already an address.
    assert!(matches!(ssh_cidr("68.104.236.252/32"), SshCidr::Given(range) if range == "68.104.236.252/32"));
    assert!(matches!(ssh_cidr("0.0.0.0/0"), SshCidr::Given(range) if range == "0.0.0.0/0"));
}

#[test]
fn the_callers_own_address_is_asked_for() {
    assert!(matches!(ssh_cidr("self"), SshCidr::OwnAddress));
    assert!(matches!(ssh_cidr("SeLf"), SshCidr::OwnAddress));
    assert_eq!(own_cidr("203.0.113.9\n").unwrap(), "203.0.113.9/32");
    assert_eq!(
        own_cidr("<html>").unwrap_err(),
        "checkip.amazonaws.com did not return an address: `<html>` is not a dotted-quad IPv4 address in `<html>/32`"
    );
}

#[test]
fn says_what_is_wrong_with_a_range() {
    assert_eq!(
        parse_cidr(" 10.0.0.1 ").unwrap_err(),
        "`10.0.0.1` is not a CIDR -- it needs a prefix length, e.g. `10.0.0.1/32`"
    );
    assert_eq!(
        parse_cidr("10.0.0.256/8").unwrap_err(),
        "`10.0.0.256` is not a dotted-quad IPv4 address in `10.0.0.256/8`"
    );
    assert_eq!(
        parse_cidr("10.0.0.1/x").unwrap_err(),
        "`x` is not a prefix length between 0 and 32 in `10.0.0.1/x`"
    );
    // A plus sign is part of a number.
    assert_eq!(parse_cidr("+10.0.0.1/+8").unwrap(), "+10.0.0.1/+8");
}

#[test]
fn a_range_that_was_read_reads_as_itself() {
    let read = parse_cidr("  192.168.1.0/24\t").unwrap();
    assert_eq!(read, "192.168.1.0/24");
    assert_eq!(parse_cidr(&read).unwrap(), read);
}

#[test]
fn says_which_side_of_a_mapping_is_wrong() {
    assert_eq!(
        parse_port_mapping("http").unwrap_err(),
        "`http` is not a port number (host side of `http`)"
    );
    assert_eq!(
        parse_port_mapping("8080: 0 ").unwrap_err(),
        "`0` is not a port number (container side of `8080: 0 `)"
    );
    assert_eq!(
        parse_port_mapping("1:2:3").unwrap_err(),
        "`2:3` is not a port number (container side of `1:2:3`)"
    );
}

#[test]
fn a_mapping_reads_back() {
    for m in [
        PortMapping { host: 1, container: 65535 },
        PortMapping { host: 30443, container: 30443 },
    ] {
        assert_eq!(mapping(&format!("{}:{}", m.host, m.container)), m);
        assert_eq!(m.host(), m.host);
    }
}

#[test]
fn usable_ports_are_usable_again() {
    let once = usable_ports(&[mapping("9:1"), mapping("9:2"), mapping("443"), mapping("7")]);
    assert_eq!(once, vec![mapping("9:1"), mapping("7")]);
    assert_eq!(usable_ports(&once), once);
}

#[test]
fn rancher_minors_have_their_k3s_versions() {
    assert_eq!(default_k3s_version("v2.11.4"), Some("v1.32.3+k3s1"));
    assert_eq!(default_k3s_version("2.12"), Some("v1.33.3+k3s1"));
    assert_eq!(default_k3s_version("2.13.0-rc1"), Some("v1.34.3+k3s1"));
    assert_eq!(default_k3s_version("v2.14.0"), Some("v1.35.5+k3s1"));
    assert_eq!(default_k3s_version("vv2.15.1.7"), Some("v1.36.2+k3s1"));
    assert_eq!(default_k3s_version("2.16.0"), Some("v1.36.3+k3s1"));
    assert_eq!(default_k3s_version("2.17.0"), None);
    assert_eq!(default_k3s_version("2"), None);
    assert_eq!(default_k3s_version(""), None);
}

#[test]
fn the_plan_is_the_documented_one() {
    assert_eq!(
        k3s_upgrade_plan("v1.36"),
        r#"kubectl apply -f - <<'PLANEOF'
apiVersion: upgrade.cattle.io/v1
kind: Plan
metadata:
  name: k3s-server
  namespace: system-upgrade
spec:
  concurrency: 1
  channel: https://update.k3s.io/v1-release/channels/v1.36
  serviceAccountName: system-upgrade
  cordon: true
  nodeSelector:
    matchExpressions:
      - { key: node-role.kubernetes.io/control-plane, operator: In, values: ["true"] }
  upgrade:
    image: rancher/k3s-upgrade
PLANEOF"#
    );
}
