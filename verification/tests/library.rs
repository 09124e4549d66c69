use base64::Engine;
use roa::charts::{ChartIndex, IndexReply};
use roa::clock::UtcTime;
use roa::instance::{
    allow_termination, find_instance, list, record_instance, strike_instance, Instance,
};
use roa::json::{parse, Json};
use roa::maintain::{
    chart_repo, collected, lookups, maintain, remote_outcome, running_k3s, ssh_arguments, Findings,
    MaintainArgs, REMOTE_SCRIPT,
};
use roa::network::{
    delete_dns_record, fqdn, ingress_rules, security_group_name, upsert_dns_record, DnsAction,
    DnsChange, IngressRule,
};
use roa::number;
use roa::poll::{
    address_step, dns_step, may_wait, rancher_pauses, rancher_step, termination_step, AddressReply,
    AddressStep, Poll, Step, RANCHER_TIMEOUT_SECS,
};
use roa::ports::{usable_ports, PortMapping};
use roa::provision::{
    choose_group, k3s_version, known_id, launch_request, provision, provisioned_instance,
    rancher_url, region, GroupChoice, Launched, ProvisionArgs, ProvisionMode,
};
use roa::report::{Check, Report, Status};
use roa::repo::RancherRepo;
use roa::snapshot::{
    check_snapshot, newest_snapshot, root_volume, DeviceMapping, InstanceDevices, SnapshotRecord,
};
use roa::terminate::{
    cleanup, group_to_delete, instance_details, terminate, DescribedInstance, InstanceTag,
    TerminateArgs,
};
use roa::text;
use roa::user_data::{render_sshd_hardening, SSHD_HARDENING};

fn instance(id: &str, name: &str, protected: bool) -> Instance {
    Instance {
        instance_id: id.to_string(),
        name: name.to_string(),
        public_ip: "203.0.113.42".to_string(),
        fqdn: format!("{}.ui.rancher.space", name),
        security_group_id: "sg-0".to_string(),
        hosted_zone_id: "Z0".to_string(),
        region: "us-west-2".to_string(),
        created_at: "2026-08-13 21:46:39 UTC".to_string(),
        rancher_repo: None,
        protected,
    }
}

fn ids(instances: &[Instance]) -> Vec<&str> {
    instances.iter().map(|i| i.instance_id.as_str()).collect()
}

fn at(text: &str) -> UtcTime {
    let t: chrono::DateTime<chrono::Utc> = text.parse().expect("a point in time");
    UtcTime::new(t.timestamp(), t.timestamp_subsec_nanos()).expect("a point in time")
}

fn owned(s: &str) -> Option<String> {
    Some(s.to_string())
}

fn args(mode: ProvisionMode) -> ProvisionArgs {
    ProvisionArgs {
        name: "shared".to_string(),
        mode,
        storage_gb: 64,
        vpc_id: "vpc-1".to_string(),
        subnet_id: "subnet-1".to_string(),
        key_name: "key".to_string(),
        security_group_id: None,
        hosted_zone_id: "Z1".to_string(),
        email: "admin@example.com".to_string(),
        rancher_repo: RancherRepo::Latest,
        protect: true,
        ssh_cidr: "0.0.0.0/0".to_string(),
        ssm_profile: None,
        rancher_version: None,
        docker_registry: "rancher/rancher".to_string(),
        ports: vec![],
        rancher_hostname: None,
        rancher_bootstrap_password: None,
        k3s_version: None,
        ami_id: "ami-1".to_string(),
        wait_for_ready: false,
    }
}

// Text and numbers.

#[test]
fn white_space_is_what_the_standard_library_says() {
    for n in 0..=0x10ffff_u32 {
        if let Some(c) = char::from_u32(n) {
            assert_eq!(text::white(c), c.is_whitespace(), "{:?}", c);
        }
    }
}

#[test]
fn text_functions_agree_with_the_standard_library() {
    for s in ["", "a", "a.b..c.", " \u{a0}x\ty \n", "one\r\ntwo\n\nthree\r", "\n", "aXbXXc", "é.ü"] {
        let cs = text::chars(s);
        assert_eq!(text::string(&cs), s);
        assert_eq!(text::string(text::trim(&cs)), s.trim());
        let split: Vec<String> = text::split(&cs, '.').iter().map(|p| text::string(p)).collect();
        assert_eq!(split, s.split('.').collect::<Vec<_>>());
        let lines: Vec<String> = text::lines(&cs).iter().map(|p| text::string(p)).collect();
        assert_eq!(lines, s.lines().collect::<Vec<_>>());
        let words: Vec<String> = text::words(&cs).iter().map(|p| text::string(p)).collect();
        assert_eq!(words, s.split_whitespace().collect::<Vec<_>>());
        let replaced = text::replace(&cs, "X", "--");
        assert_eq!(text::string(&replaced), s.replace("X", "--"));
        assert_eq!(text::contains(&cs, "b"), s.contains("b"));
        assert_eq!(text::is_ignoring_case(&cs, "A"), s.eq_ignore_ascii_case("A"));
    }
    assert_eq!(text::string(&text::replace(&text::chars("aaa"), "aa", "b")), "ba");
}

#[test]
fn numbers_parse_as_in_the_standard_library() {
    for s in ["", "+", "-", "0", "007", "+5", "-5", "255", "256", "4294967295", "4294967296", "1 ", "x"] {
        let cs = text::chars(s);
        assert_eq!(number::parse(&cs, u32::MAX), s.parse::<u32>().ok(), "{}", s);
        assert_eq!(number::parse(&cs, 255), s.parse::<u8>().ok().map(u32::from), "{}", s);
    }
}

#[test]
fn numbers_read_back() {
    for n in [0, 7, 10, 255, 80443, 4294967295_u64] {
        let shown = number::show(n);
        assert_eq!(shown, n.to_string());
        assert_eq!(number::parse(&text::chars(&shown), u32::MAX).map(u64::from), Some(n));
    }
    assert_eq!(number::show(u64::MAX), "18446744073709551615");
    assert_eq!(number::show_signed(-12), "-12");
    assert_eq!(number::show_signed(i64::MIN), "-9223372036854775808");
}

// Time.

#[test]
fn times_have_a_range() {
    assert!(UtcTime::new(8_210_266_876_799, 999_999_999).is_some());
    assert!(UtcTime::new(8_210_266_876_800, 0).is_none());
    assert!(UtcTime::new(-8_334_601_228_800, 0).is_some());
    assert!(UtcTime::new(-8_334_601_228_801, 0).is_none());
    assert!(UtcTime::new(59, 1_999_999_999).is_some());
    assert!(UtcTime::new(59, 2_000_000_000).is_none());
    assert!(UtcTime::new(-1, 1_000_000_000).is_some());
    assert!(UtcTime::new(60, 1_000_000_000).is_none());
}

#[test]
fn times_are_shown() {
    let t = at("2026-08-13T21:46:39Z");
    assert_eq!(t.day(), "2026-08-13");
    assert_eq!(t.minute(), "2026-08-13 21:46 UTC");
    assert_eq!(t.show(), "2026-08-13 21:46:39 UTC");
    assert_eq!(at("2026-08-13T21:46:39.5Z").show(), "2026-08-13 21:46:39.500 UTC");
}

#[test]
fn days_are_counted_towards_zero() {
    let from = at("2026-08-13T00:00:00Z");
    assert_eq!(at("2026-08-13T23:59:59.999Z").days_since(&from), 0);
    assert_eq!(at("2026-08-14T00:00:00Z").days_since(&from), 1);
    assert_eq!(at("2026-08-12T00:00:01Z").days_since(&from), 0);
    assert_eq!(at("2026-08-12T00:00:00Z").days_since(&from), -1);
    assert_eq!(at("2026-08-11T23:59:59.5Z").days_since(&from), -1);
    assert!(from.before(&at("2026-08-13T00:00:00.000000001Z")));
    assert!(!from.before(&from));
}

// JSON.

#[test]
fn json_is_read() {
    let json = parse(r#" {"a":[1,-2.5e3,true,null,"xé"],"b":{"c":"d"},"a2":{}} "#).unwrap();
    let list = roa::json::list_of(json.get("a")).unwrap();
    assert!(matches!(&list[0], Json::Number(n) if n == "1"));
    assert!(matches!(&list[1], Json::Number(n) if n == "-2500.0"));
    assert!(matches!(&list[2], Json::Bool(true)));
    assert!(matches!(&list[3], Json::Null));
    assert!(matches!(&list[4], Json::Text(s) if s == "xé"));
    assert_eq!(roa::json::text_of(json.get_inner("b", "c")), Some("d"));
    assert!(json.get_inner("a", "c").is_none());
    assert!(json.get("z").is_none());
    assert!(parse("[1,]").is_none());
    assert!(parse("").is_none());
}

// The manifest.

#[test]
fn instances_are_listed_in_columns() {
    let instances = vec![instance("i-0123456789abcdef0", "my-rancher", false), instance("i-2", "b", true)];
    assert_eq!(
        list(&instances),
        "i-0123456789abcdef0  my-rancher  203.0.113.42  my-rancher.ui.rancher.space\n\
         i-2  b  203.0.113.42  b.ui.rancher.space\n"
    );
    assert_eq!(list(&[]), "");
}

#[test]
fn an_instance_is_found_by_its_name() {
    let instances = vec![instance("i-1", "a", false), instance("i-2", "b", false), instance("i-3", "b", false)];
    assert_eq!(find_instance(&instances, "b", "/m").unwrap().instance_id, "i-2");
    assert_eq!(
        find_instance(&instances, "c", "/m").unwrap_err(),
        "No instance named `c` in /m. Known instances: a, b, b"
    );
    assert_eq!(
        find_instance(&[], "c", "/m").unwrap_err(),
        "No instance named `c` in /m. Known instances: <none>"
    );
}

#[test]
fn a_protected_instance_is_not_terminated_without_force() {
    let instances = vec![instance("i-1", "a", true), instance("i-2", "b", false)];
    assert_eq!(
        allow_termination(&instances, "i-1", false).unwrap_err(),
        "Instance i-1 is protected; pass --force to terminate it"
    );
    assert!(allow_termination(&instances, "i-1", true).is_ok());
    assert!(allow_termination(&instances, "i-2", false).is_ok());
    assert!(allow_termination(&instances, "i-3", false).is_ok());
}

#[test]
fn striking_an_instance_undoes_recording_it() {
    let mut instances = vec![instance("i-1", "a", false), instance("i-2", "b", true)];
    record_instance(&mut instances, instance("i-3", "c", false));
    assert_eq!(ids(&instances), ["i-1", "i-2", "i-3"]);
    assert_eq!(ids(&strike_instance(&instances, "i-3")), ["i-1", "i-2"]);
    assert_eq!(ids(&strike_instance(&instances, "i-1")), ["i-2", "i-3"]);
    assert_eq!(ids(&strike_instance(&instances, "i-9")), ["i-1", "i-2", "i-3"]);
}

#[test]
fn a_cloned_instance_is_the_same() {
    let mut one = instance("i-1", "a", true);
    one.rancher_repo = owned("https://example.com");
    let two = one.clone();
    assert_eq!(two.rancher_repo.as_deref(), Some("https://example.com"));
    assert_eq!(two.created_at, one.created_at);
    assert!(two.protected);
}

// Repositories.

#[test]
fn repositories_have_names_and_addresses() {
    for (name, url) in [
        ("latest", "https://releases.rancher.com/server-charts/latest"),
        ("prime", "https://charts.rancher.com/server-charts/prime"),
        ("prime-latest", "https://charts.optimus.rancher.io/server-charts/latest"),
        ("prime-alpha", "https://charts.optimus.rancher.io/server-charts/alpha"),
        ("alpha", "https://charts.optimus.rancher.io/server-charts/alpha"),
        ("community-alpha", "https://releases.rancher.com/server-charts/alpha"),
        ("release-2-15", "https://charts.optimus.rancher.io/server-charts/release-2-15"),
    ] {
        assert_eq!(RancherRepo::parse(name).unwrap().value(), url);
        assert_eq!(name.parse::<RancherRepo>().unwrap().value(), url);
    }
    assert_eq!(RancherRepo::parse("Latest").unwrap_err(), "Invalid rancher repo: Latest");
}

// Names, rules and records.

#[test]
fn names_are_made_of_the_instance() {
    assert_eq!(fqdn("shared"), "shared.ui.rancher.space");
    assert_eq!(security_group_name("shared"), "roa-shared");
    assert_eq!(rancher_url("shared"), "https://shared.ui.rancher.space/");
}

fn parts(change: &DnsChange) -> (&str, &str, &str, i64, Vec<&str>) {
    let set = &change.record_set;
    (
        change.hosted_zone_id.as_str(),
        set.name.as_str(),
        set.record_type.as_str(),
        set.ttl_secs,
        set.values.iter().map(String::as_str).collect(),
    )
}

#[test]
fn the_record_that_is_removed_is_the_one_that_was_made() {
    let made = upsert_dns_record("Z1", "a.b", "203.0.113.1");
    let removed = delete_dns_record("Z1", "a.b", "203.0.113.1");
    assert_eq!(made.action, DnsAction::Upsert);
    assert_eq!(removed.action, DnsAction::Delete);
    assert_eq!(parts(&made), ("Z1", "a.b", "A", 300, vec!["203.0.113.1"]));
    assert_eq!(parts(&removed), parts(&made));
}

fn shown(rules: &[IngressRule]) -> Vec<(u16, &str)> {
    rules.iter().map(|r| (r.port, r.cidr.as_str())).collect()
}

#[test]
fn only_ssh_is_scoped_and_no_port_repeats() {
    let asked = [
        PortMapping { host: 22, container: 1 },
        PortMapping { host: 8080, container: 80 },
        PortMapping { host: 8080, container: 81 },
    ];
    let rules = ingress_rules(&usable_ports(&asked), "203.0.113.9/32");
    assert_eq!(
        shown(&rules),
        [
            (22, "203.0.113.9/32"),
            (443, "0.0.0.0/0"),
            (80, "0.0.0.0/0"),
            (8080, "0.0.0.0/0"),
        ]
    );
}

// Waiting.

#[test]
fn dns_is_asked_for_twenty_times_with_growing_pauses() {
    let mut poll = Poll::for_dns();
    let mut pauses = vec![];
    while poll.may_ask() {
        let status = if pauses.is_empty() { None } else { Some("PENDING") };
        match dns_step(&mut poll, status) {
            Step::Pause(secs) => pauses.push(secs),
            Step::Done => panic!("nothing has settled"),
        }
    }
    assert_eq!(pauses.len(), 20);
    assert_eq!(&pauses[..6], [2, 4, 8, 16, 30, 30]);
    assert_eq!(pauses.iter().sum::<u64>(), 510);
    assert!(matches!(dns_step(&mut Poll::for_dns(), Some("INSYNC")), Step::Done));
}

#[test]
fn an_address_is_asked_for_until_it_is_there() {
    let mut poll = Poll::for_public_ip();
    assert!(matches!(
        address_step(&mut poll, &AddressReply::Refused(owned("InvalidInstanceID.NotFound"))),
        AddressStep::Pause { secs: 2, not_found: true }
    ));
    assert!(matches!(
        address_step(&mut poll, &AddressReply::Described(None)),
        AddressStep::Pause { secs: 4, not_found: false }
    ));
    assert!(matches!(
        address_step(&mut poll, &AddressReply::Described(owned("203.0.113.1"))),
        AddressStep::Found(ip) if ip == "203.0.113.1"
    ));
    assert!(matches!(address_step(&mut poll, &AddressReply::Refused(owned("Other"))), AddressStep::GiveUp));
    assert!(matches!(address_step(&mut poll, &AddressReply::Refused(None)), AddressStep::GiveUp));
    assert!(matches!(address_step(&mut poll, &AddressReply::Failed), AddressStep::GiveUp));
    let mut asked = 2;
    while poll.may_ask() {
        address_step(&mut poll, &AddressReply::Described(None));
        asked += 1;
    }
    assert_eq!(asked, 30);
}

#[test]
fn termination_is_asked_for_every_five_seconds() {
    let mut poll = Poll::for_termination();
    let mut asked = 0;
    while poll.may_ask() {
        assert!(matches!(termination_step(&mut poll, Some("shutting-down")), Step::Pause(5)));
        asked += 1;
    }
    assert_eq!(asked, 30);
    assert!(matches!(termination_step(&mut Poll::for_termination(), None), Step::Pause(5)));
    assert!(matches!(termination_step(&mut Poll::for_termination(), Some("terminated")), Step::Done));
}

#[test]
fn rancher_is_ready_when_it_answers() {
    let mut pauses = rancher_pauses();
    let mut waited = vec![];
    for status in [None, Some(199), Some(400), Some(503), None, None] {
        if let Step::Pause(secs) = rancher_step(&mut pauses, status) {
            waited.push(secs);
        }
    }
    assert_eq!(waited, [5, 10, 20, 40, 60, 60]);
    for status in [200, 204, 302, 399] {
        assert!(matches!(rancher_step(&mut pauses, Some(status)), Step::Done));
    }
    assert!(may_wait(599, RANCHER_TIMEOUT_SECS));
    assert!(!may_wait(600, RANCHER_TIMEOUT_SECS));
}

// Provisioning.

#[test]
fn a_helm_script_is_filled() {
    let mut a = args(ProvisionMode::Helm);
    a.rancher_version = owned("v2.16.0");
    a.rancher_bootstrap_password = owned("pw");
    let p = provision(&a);

    assert_eq!(p.fqdn, "shared.ui.rancher.space");
    assert_eq!(p.rancher_repo, "https://releases.rancher.com/server-charts/latest");
    assert_eq!(
        p.notices,
        ["Using k3s version: v1.36.3+k3s1", "Pinning the k3s upgrade Plan to channel: v1.36"]
    );
    for held in [
        "INSTALL_K3S_VERSION=v1.36.3+k3s1 ",
        "  channel: https://update.k3s.io/v1-release/channels/v1.36\n",
        "--set hostname=shared.ui.rancher.space ",
        "--set letsEncrypt.email=admin@example.com ",
        "rancher-charts https://releases.rancher.com/server-charts/latest\n",
        "  --version v2.16.0 --set bootstrapPassword=\"pw\" \\\n",
        SSHD_HARDENING,
    ] {
        assert!(p.script.contains(held), "{}", held);
    }
    assert!(!p.script.contains("\"<"));
}

#[test]
fn an_unpinned_helm_script_has_no_plan() {
    let mut a = args(ProvisionMode::Helm);
    a.rancher_hostname = owned("rancher.example.com");
    let p = provision(&a);

    assert_eq!(
        p.notices,
        [
            "No k3s version pinned; the k3s installer will use the latest stable release",
            "No k3s minor to pin; writing no k3s upgrade Plan"
        ]
    );
    assert!(p.script.contains("INSTALL_K3S_VERSION= sh"));
    assert!(p.script.contains("--set hostname=rancher.example.com "));
    assert!(p.script.contains("  --devel  \\\n"));
    assert!(!p.script.contains("kind: Plan"));
    assert!(!p.script.contains("\"<"));
}

#[test]
fn a_k3s_version_without_a_minor_gets_no_plan() {
    let mut a = args(ProvisionMode::Helm);
    a.rancher_version = owned("v2.16.0");
    a.rancher_bootstrap_password = owned("Plan");
    for version in ["stable", "v1.36", "kind:"] {
        a.k3s_version = owned(version);
        let p = provision(&a);
        assert_eq!(p.notices[1], "No k3s minor to pin; writing no k3s upgrade Plan");
        assert!(p.script.contains(&format!("INSTALL_K3S_VERSION={} sh", version)));
        assert!(!p.script.contains("kind: Plan"));
    }
    // A placeholder in a value is filled like any other: this one comes to nothing.
    a.rancher_hostname = owned("kind: Pl\"<K3S_UPGRADE_PLAN>\"an");
    assert!(provision(&a).script.contains("--set hostname=kind: Plan "));
}

#[test]
fn the_k3s_version_asked_for_comes_first() {
    let mut a = args(ProvisionMode::Helm);
    assert_eq!(k3s_version(&a), None);
    a.rancher_version = owned("2.14.1");
    assert_eq!(k3s_version(&a).as_deref(), Some("v1.35.5+k3s1"));
    a.k3s_version = owned("v1.37.1+k3s1");
    assert_eq!(k3s_version(&a).as_deref(), Some("v1.37.1+k3s1"));
    a.k3s_version = None;
    a.rancher_version = owned("2.99.1");
    assert_eq!(k3s_version(&a), None);
}

#[test]
fn a_docker_script_is_filled() {
    let mut a = args(ProvisionMode::Docker);
    a.ports = vec![PortMapping { host: 8080, container: 80 }];
    let p = provision(&a);
    assert!(p.script.contains("  -p 443:443 \\\n  -p 8080:80 \\\n  -e CATTLE_BOOTSTRAP_PASSWORD"));
    assert!(p.script.contains("  rancher/rancher:head\n"));
    assert!(p.script.contains(SSHD_HARDENING));
    assert!(!p.script.contains("\"<"));
    a.rancher_version = owned("v2.16.0");
    a.docker_registry = "example.com/r".to_string();
    assert!(provision(&a).script.contains("  example.com/r:v2.16.0\n"));
}

#[test]
fn user_data_is_the_encoded_script() {
    let p = provision(&args(ProvisionMode::Docker));
    let decoded = base64::engine::general_purpose::STANDARD.decode(&p.user_data).unwrap();
    assert_eq!(String::from_utf8(decoded).unwrap(), p.script);
    assert!(p.user_data.starts_with("IyEvYmluL2Jhc2gKc2V0IC1lCg"));
}

#[test]
fn no_hardening_placeholder_survives() {
    for template in ["x\"<SSHD_HARDENING>\"\n\"<SSHD_HARDENING>\"\n", "\"<SSHD_\"<SSHD_HARDENING>\"\nHARDENING>\"\n"] {
        assert!(!render_sshd_hardening(template).contains("\"<SSHD_HARDENING>\"\n"));
    }
}

#[test]
fn a_security_group_is_created_or_reused() {
    let mut a = args(ProvisionMode::Helm);
    a.ports = vec![PortMapping { host: 443, container: 443 }, PortMapping { host: 30443, container: 30443 }];
    match choose_group(&a, "203.0.113.9/32") {
        GroupChoice::Create(group) => {
            assert_eq!(group.name, "roa-shared");
            assert_eq!(group.description, "ROA: Rancher development security group");
            assert_eq!(
                shown(&group.rules),
                [(22, "203.0.113.9/32"), (443, "0.0.0.0/0"), (80, "0.0.0.0/0"), (30443, "0.0.0.0/0")]
            );
        }
        GroupChoice::Existing(id) => panic!("{}", id),
    }
    a.security_group_id = owned("sg-9");
    assert!(matches!(choose_group(&a, "x"), GroupChoice::Existing(id) if id == "sg-9"));
}

#[test]
fn an_instance_is_launched_as_documented() {
    let mut a = args(ProvisionMode::Helm);
    a.ssm_profile = owned("ssm");
    let r = launch_request(&a, "ZGF0YQ==", "sg-1");
    assert_eq!(r.image_id, "ami-1");
    assert_eq!(r.instance_type, "t3.2xlarge");
    assert_eq!(r.count, 1);
    assert_eq!(r.key_name, "key");
    assert_eq!(r.user_data, "ZGF0YQ==");
    assert!(r.public_address);
    assert_eq!(r.subnet_id, "subnet-1");
    assert_eq!(r.security_group_id, "sg-1");
    assert_eq!(r.device_index, 0);
    assert_eq!(r.device_name, "/dev/sda1");
    assert_eq!(r.volume_gb, 64);
    assert_eq!(r.volume_type, "gp3");
    assert!(r.delete_on_termination);
    let tags: Vec<(&str, &str)> = r.tags.iter().map(|t| (t.key.as_str(), t.value.as_str())).collect();
    assert_eq!(tags, [("Name", "shared"), ("ManagedBy", "roa")]);
    assert_eq!(r.profile.as_deref(), Some("ssm"));
}

#[test]
fn what_was_provisioned_is_recorded() {
    let a = args(ProvisionMode::Helm);
    let p = provision(&a);
    let launched = Launched {
        instance_id: known_id(Some("i-1")),
        public_ip: "203.0.113.1".to_string(),
        security_group_id: "sg-1".to_string(),
        region: region(None, Some("eu-west-1")),
        created_at: at("2026-08-13T21:46:39Z"),
    };
    let i = provisioned_instance(&a, &p, &launched);
    assert_eq!(i.instance_id, "i-1");
    assert_eq!(i.name, "shared");
    assert_eq!(i.public_ip, "203.0.113.1");
    assert_eq!(i.fqdn, "shared.ui.rancher.space");
    assert_eq!(i.security_group_id, "sg-1");
    assert_eq!(i.hosted_zone_id, "Z1");
    assert_eq!(i.region, "eu-west-1");
    assert_eq!(i.created_at, "2026-08-13 21:46:39 UTC");
    assert_eq!(i.rancher_repo.as_deref(), Some("https://releases.rancher.com/server-charts/latest"));
    assert!(i.protected);
    assert_eq!(known_id(None), "<unknown>");
    assert_eq!(region(Some("a"), Some("b")), "a");
    assert_eq!(region(None, None), "us-west-2");
}

// Terminating.

fn described(tags: &[(Option<&str>, Option<&str>)], ip: Option<&str>) -> DescribedInstance {
    DescribedInstance {
        tags: tags
            .iter()
            .map(|(k, v)| InstanceTag { key: k.map(str::to_string), value: v.map(str::to_string) })
            .collect(),
        public_ip: ip.map(str::to_string),
    }
}

#[test]
fn details_are_read_off_the_tags() {
    let found = described(
        &[(None, Some("x")), (Some("Name"), Some("shared")), (Some("Name"), Some("other"))],
        Some("203.0.113.1"),
    );
    assert_eq!(
        instance_details(&Some(found), "i-1").unwrap(),
        ("shared".to_string(), "203.0.113.1".to_string())
    );
    let bare = described(&[(Some("Name"), None)], None);
    assert_eq!(instance_details(&Some(bare), "i-1").unwrap(), (String::new(), String::new()));
    assert_eq!(instance_details(&None, "i-1").unwrap_err(), "Instance i-1 not found");
}

#[test]
fn what_provisioning_made_is_cleaned_up() {
    let left = cleanup("Z1", "shared", "203.0.113.1");
    let removed = left.record.unwrap();
    assert_eq!(removed.action, DnsAction::Delete);
    assert_eq!(
        parts(&removed),
        parts(&upsert_dns_record("Z1", &fqdn("shared"), "203.0.113.1"))
    );
    assert_eq!(left.group, Some(security_group_name("shared")));
    let nameless = cleanup("Z1", "", "203.0.113.1");
    assert!(nameless.record.is_none() && nameless.group.is_none());
    let homeless = cleanup("Z1", "shared", "");
    assert!(homeless.record.is_none());
    assert_eq!(homeless.group.as_deref(), Some("roa-shared"));
}

#[test]
fn termination_goes_by_the_manifest_and_by_ec2() {
    let mut asked = TerminateArgs {
        instance_id: "i-1".to_string(),
        hosted_zone_id: "Z0".to_string(),
        vpc_id: "vpc-1".to_string(),
        force: false,
    };
    let instances = vec![instance("i-1", "shared", true)];
    let found = Ok(Some(described(&[(Some("Name"), Some("shared"))], Some("203.0.113.1"))));
    assert_eq!(
        terminate(&asked, &instances, &found).unwrap_err(),
        "Instance i-1 is protected; pass --force to terminate it"
    );
    asked.force = true;
    let left = terminate(&asked, &instances, &found).unwrap();
    assert_eq!(left.group.as_deref(), Some("roa-shared"));
    assert_eq!(left.record.unwrap().hosted_zone_id, "Z0");
    for unknown in [Ok(None), Err("denied".to_string())] {
        let left = terminate(&asked, &instances, &unknown).unwrap();
        assert!(left.record.is_none() && left.group.is_none());
    }
}

#[test]
fn the_first_group_found_is_deleted() {
    assert_eq!(group_to_delete(&[owned("sg-1"), owned("sg-2")]).as_deref(), Some("sg-1"));
    assert_eq!(group_to_delete(&[None, owned("sg-2")]), None);
    assert_eq!(group_to_delete(&[]), None);
}

// Snapshots.

#[test]
fn the_root_volume_is_that_of_the_root_device() {
    let devices = |root: Option<&str>| {
        Some(InstanceDevices {
            root_device_name: root.map(str::to_string),
            mappings: vec![
                DeviceMapping { device_name: owned("/dev/sdb"), volume_id: owned("vol-b") },
                DeviceMapping { device_name: owned("/dev/sda1"), volume_id: owned("vol-a") },
                DeviceMapping { device_name: owned("/dev/sdc"), volume_id: None },
            ],
        })
    };
    assert_eq!(root_volume(&devices(None), "i-1").unwrap(), "vol-a");
    assert_eq!(root_volume(&devices(Some("/dev/sdb")), "i-1").unwrap(), "vol-b");
    assert_eq!(
        root_volume(&devices(Some("/dev/sdc")), "i-1").unwrap_err(),
        "could not resolve the root volume"
    );
    assert_eq!(
        root_volume(&devices(Some("/dev/sdd")), "i-1").unwrap_err(),
        "could not resolve the root volume"
    );
    assert_eq!(root_volume(&None, "i-1").unwrap_err(), "instance i-1 not found");
}

fn snapshot(id: &str, day: &str, state: Option<&str>) -> SnapshotRecord {
    SnapshotRecord {
        id: owned(id),
        started: Some(at(&format!("{}T06:00:00Z", day)).secs()),
        state: state.map(str::to_string),
    }
}

#[test]
fn the_newest_snapshot_started_last() {
    let mut records = vec![
        snapshot("a", "2026-08-10", Some("completed")),
        snapshot("b", "2026-08-12", Some("completed")),
        snapshot("c", "2026-08-12", None),
        snapshot("d", "2026-08-11", Some("completed")),
    ];
    records.push(SnapshotRecord { id: None, started: Some(i64::from(u32::MAX)), state: None });
    records.push(SnapshotRecord { id: owned("e"), started: None, state: None });
    records.push(SnapshotRecord { id: owned("f"), started: Some(i64::MAX), state: None });
    let newest = newest_snapshot(&records).unwrap();
    assert_eq!(newest.id, "c");
    assert_eq!(newest.state, "unknown");
    assert!(newest_snapshot(&[]).is_none());
}

#[test]
fn snapshots_age() {
    let now = at("2026-08-20T05:59:59Z");
    let check = |records: Vec<SnapshotRecord>| check_snapshot(&Ok(records), &now);
    let week = check(vec![snapshot("s", "2026-08-12", Some("completed"))]);
    assert_eq!(week.status, Status::Okay);
    assert_eq!(week.detail, "s (2026-08-12) 7 days old, completed");
    let older = check(vec![snapshot("s", "2026-08-11", Some("completed"))]);
    assert_eq!(older.status, Status::Attention);
    assert_eq!(older.detail, "s (2026-08-11) 8 days old, completed");
    let pending = check(vec![snapshot("s", "2026-08-19", Some("pending"))]);
    assert_eq!(pending.status, Status::Attention);
    assert_eq!(pending.detail, "s (2026-08-19) 0 days old, pending");
    let ahead = check(vec![snapshot("s", "2026-08-22", Some("completed"))]);
    assert_eq!(ahead.detail, "s (2026-08-22) -2 days old, completed");
    let none = check(vec![]);
    assert_eq!(none.status, Status::Attention);
    assert_eq!(none.detail, "no snapshots of the root volume -- no restore point");
    let failed = check_snapshot(&Err("denied".to_string()), &now);
    assert_eq!(failed.status, Status::Unknown);
    assert_eq!(failed.detail, "lookup failed: denied");
}

// The report.

#[test]
fn details_are_kept_to_a_line() {
    let check = Check::new("ssh", Status::Unknown, " a \n\n\tb\r\nc\n");
    assert_eq!(check.detail, "a; b; c");
    assert_eq!(Check::ok("x", "").status, Status::Okay);
    assert_eq!(Check::attention("x", "").status.label(), "ATTENTION");
    assert_eq!(Check::unknown("x", "").status.label(), "UNKNOWN");
    assert_eq!(Status::Okay.label(), "OK");
}

#[test]
fn the_report_is_a_table() {
    let report = Report {
        name: "shared".to_string(),
        instance_id: "i-0123456789abcdef0".to_string(),
        fqdn: "shared.ui.rancher.space".to_string(),
        region: "us-west-2".to_string(),
        checks: vec![
            Check::attention("os-updates", "57 pending, 1 security"),
            Check::ok("k3s-version", "v1.36.3+k3s1 (current for channel v1.36)"),
            Check::attention(
                "k3s-upgrade-plan",
                "no system-upgrade-controller Plan -- k3s patches are not being applied",
            ),
            Check::unknown("disk", "not collected"),
        ],
    };
    assert_eq!(
        report.render(),
        "shared (i-0123456789abcdef0) shared.ui.rancher.space [us-west-2]\n\
         \n\
         \x20 os-updates        ATTENTION  57 pending, 1 security\n\
         \x20 k3s-version       OK         v1.36.3+k3s1 (current for channel v1.36)\n\
         \x20 k3s-upgrade-plan  ATTENTION  no system-upgrade-controller Plan -- k3s patches are not being applied\n\
         \x20 disk              UNKNOWN    not collected\n\
         \n\
         2 need attention, 1 unknown\n"
    );
    assert!(report.needs_attention());
}

#[test]
fn an_unknown_check_alone_needs_no_attention() {
    let report = Report {
        name: String::new(),
        instance_id: String::new(),
        fqdn: String::new(),
        region: String::new(),
        checks: vec![Check::unknown("a", "b"), Check::ok("c", "d")],
    };
    assert!(!report.needs_attention());
    assert!(report.render().ends_with("\n0 need attention, 1 unknown\n"));
}

fn maintain_args() -> MaintainArgs {
    MaintainArgs {
        name: "shared".to_string(),
        ssh_user: "ubuntu".to_string(),
        ssh_key: None,
        rancher_repo: RancherRepo::PrimeLatest,
        json: false,
    }
}

#[test]
fn ssh_never_prompts_and_goes_by_the_domain_name() {
    let mut a = maintain_args();
    let i = instance("i-1", "shared", false);
    let options = "-o BatchMode=yes -o ConnectTimeout=10 -o StrictHostKeyChecking=accept-new";
    assert_eq!(
        ssh_arguments(&a, &i).join(" "),
        format!("{} ubuntu@shared.ui.rancher.space bash -s", options)
    );
    a.ssh_key = owned("/k");
    assert_eq!(
        ssh_arguments(&a, &i).join(" "),
        format!("{} -i /k ubuntu@shared.ui.rancher.space bash -s", options)
    );
    assert_eq!(ssh_arguments(&a, &i).last().unwrap(), "bash -s");
}

#[test]
fn ssh_fails_only_where_the_last_marker_is_missing() {
    assert_eq!(remote_outcome(true, "", "out", "err").unwrap(), "out");
    assert_eq!(remote_outcome(false, "exit status: 1", "x\n###end\n", "err").unwrap(), "x\n###end\n");
    assert_eq!(remote_outcome(false, "exit status: 255", "x", " no route \n").unwrap_err(), "no route");
    assert_eq!(
        remote_outcome(false, "exit status: 255", "", " \n").unwrap_err(),
        "ssh exited with exit status: 255"
    );
}

#[test]
fn the_remote_script_writes_every_section() {
    for name in ["apt", "reboot", "k3s_version", "plans", "helm", "disk", "clusters", "end"] {
        assert!(REMOTE_SCRIPT.contains(&format!("echo '###{}'\n", name)), "{}", name);
    }
}

#[test]
fn the_recorded_repository_comes_first() {
    let mut i = instance("i-1", "shared", false);
    assert_eq!(
        chart_repo(&i, &maintain_args()),
        "https://charts.optimus.rancher.io/server-charts/latest"
    );
    i.rancher_repo = owned("https://recorded");
    assert_eq!(chart_repo(&i, &maintain_args()), "https://recorded");
}

fn findings(remote: Result<String, String>) -> Findings {
    Findings {
        remote,
        channel: Ok(owned("v1.36.3+k3s1")),
        index: IndexReply::Index(ChartIndex { entries: vec![] }),
        snapshots: Ok(vec![]),
        now: at("2026-08-20T00:00:00Z"),
    }
}

fn rows(report: &Report) -> Vec<(&str, Status)> {
    report.checks.iter().map(|c| (c.name.as_str(), c.status)).collect()
}

#[test]
fn an_instance_that_is_not_reached_still_gets_its_report() {
    let i = instance("i-1", "shared", false);
    let report = maintain(&i, "https://repo", &findings(Err("no route".to_string())));
    assert_eq!(report.checks[0].detail, "could not reach shared.ui.rancher.space: no route");
    assert_eq!(
        rows(&report),
        [
            ("ssh", Status::Unknown),
            ("os-updates", Status::Unknown),
            ("reboot", Status::Unknown),
            ("k3s-version", Status::Unknown),
            ("k3s-upgrade-plan", Status::Unknown),
            ("rancher-chart", Status::Unknown),
            ("disk", Status::Unknown),
            ("clusters", Status::Unknown),
            ("snapshot", Status::Attention),
        ]
    );
    let nothing = lookups(&i, &collected(&Err("no route".to_string())), "https://repo");
    assert_eq!((nothing.channel, nothing.index), (None, None));
}

#[test]
fn a_reached_instance_gets_all_of_its_checks() {
    let i = instance("i-1", "shared", false);
    let output = "###apt\n3;0\n###reboot\nnone\n###k3s_version\n v1.36.3+k3s1\n\n###plans\n{\"items\":[]}\n\
                  ###helm\n[{\"name\":\"rancher\",\"chart\":\"rancher-2.16.0-a-head\",\"app_version\":\"v2\"}]\n\
                  ###disk\n/dev/root 1 1 1 38% /\n20G x\n###clusters\n{\"items\":[{\"metadata\":{\"name\":\"local\"},\
                  \"status\":{\"conditions\":[{\"type\":\"Ready\",\"status\":\"True\"}]}}]}\n###end\n";
    let remote = Ok(output.to_string());
    let sections = collected(&remote);
    assert_eq!(running_k3s(&sections).as_deref(), Some("v1.36.3+k3s1"));
    let wanted = lookups(&i, &sections, "https://repo/");
    assert_eq!(wanted.region, "us-west-2");
    assert_eq!(wanted.channel.as_deref(), Some("v1.36"));
    assert_eq!(wanted.index.as_deref(), Some("https://repo/index.yaml"));

    let report = maintain(&i, "https://repo/", &findings(remote));
    assert_eq!(
        rows(&report),
        [
            ("os-updates", Status::Okay),
            ("reboot", Status::Okay),
            ("k3s-version", Status::Okay),
            ("k3s-upgrade-plan", Status::Attention),
            ("rancher-chart", Status::Unknown),
            ("disk", Status::Okay),
            ("clusters", Status::Okay),
            ("snapshot", Status::Attention),
        ]
    );
    assert_eq!(report.checks[6].detail, "local (local) Ready=True");
}
