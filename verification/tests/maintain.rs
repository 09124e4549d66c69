use roa::channels::{channel_latest, channel_to_look_up, check_k3s_version, K3sChannel};
use roa::charts::{
    check_rancher_chart, index_to_fetch, newest_head_chart, ChartEntry, ChartIndex, IndexReply,
};
use roa::clock::UtcTime;
use roa::cluster::{check_clusters, check_upgrade_plan, running_rancher_chart, RunningChart};
use roa::on_box::{check_disk, check_os_updates, check_reboot_required};
use roa::report::{Check, Status};
use roa::sections::{split_sections, Sections};
use roa::versions::{chart_minor, minor_of};

// Deliberately out of publish order, and with a `-head` version whose hex suffix sorts *after* the
// newest one under any lexical or semver ordering.
const INDEX: &str = r#"
apiVersion: v1
entries:
  rancher:
    - appVersion: v2.16.0-ffffffff-head
      created: "2026-08-14T15:42:29.693711677Z"
      version: 2.16.0-ffffffff-head
    - appVersion: v2.16.0-0000aaaa-head
      created: "2026-08-18T15:38:04.751911157Z"
      version: 2.16.0-0000aaaa-head
    - appVersion: v2.15.4-bbbbbbbb-head
      created: "2026-08-19T09:00:00.000000000Z"
      version: 2.15.4-bbbbbbbb-head
    - appVersion: v2.16.0
      created: "2026-08-20T09:00:00.000000000Z"
      version: 2.16.0
"#;

fn time(text: &str) -> UtcTime {
    let t: chrono::DateTime<chrono::Utc> = text.parse().expect("a point in time");
    UtcTime::new(t.timestamp(), t.timestamp_subsec_nanos()).expect("a point in time")
}

fn entry(version: &str, app_version: &str, created: &str) -> ChartEntry {
    ChartEntry {
        version: version.to_string(),
        app_version: app_version.to_string(),
        created: time(created),
    }
}

fn index(yaml: &str) -> ChartIndex {
    let value: serde_norway::Value = serde_norway::from_str(yaml).expect("an index");
    let field = |e: &serde_norway::Value, key: &str| {
        e.get(key).and_then(|v| v.as_str()).unwrap_or("").to_string()
    };
    let entries = value
        .get("entries")
        .and_then(|e| e.as_mapping())
        .expect("entries")
        .iter()
        .map(|(name, list)| {
            let charts = list
                .as_sequence()
                .expect("charts")
                .iter()
                .map(|e| entry(&field(e, "version"), &field(e, "appVersion"), &field(e, "created")))
                .collect();
            (name.as_str().expect("a name").to_string(), charts)
        })
        .collect();
    ChartIndex { entries }
}

fn section(key: &str, value: &str) -> Sections {
    let mut sections = Sections::new();
    sections.insert(key.to_string(), value.to_string());
    sections
}

fn says(check: &Check, status: Status, detail: &str) {
    assert_eq!(check.detail, detail);
    assert_eq!(check.status, status);
}

#[test]
fn picks_the_newest_head_chart_by_publish_date_not_semver() {
    let newest = newest_head_chart(&index(INDEX), "2.16").expect("a 2.16 head chart");

    // `ffffffff` beats `0000aaaa` lexically and under semver's pre-release rules; only the publish
    // date gets this right.
    assert_eq!(newest.version, "2.16.0-0000aaaa-head");
    assert_eq!(newest.app_version, "v2.16.0-0000aaaa-head");
}

#[test]
fn ignores_other_minors_and_non_head_charts() {
    let newest = newest_head_chart(&index(INDEX), "2.16").unwrap();

    // The 2.15 head is newer, and so is the 2.16.0 GA chart -- neither is a candidate.
    assert!(!newest.version.starts_with("2.15"));
    assert!(newest.version.ends_with("-head"));

    let older_line = newest_head_chart(&index(INDEX), "2.15").unwrap();
    assert_eq!(older_line.version, "2.15.4-bbbbbbbb-head");

    assert!(newest_head_chart(&index(INDEX), "2.14").is_none());
}

#[test]
fn tolerates_a_v_prefixed_minor() {
    assert_eq!(
        newest_head_chart(&index(INDEX), "v2.16").unwrap().version,
        "2.16.0-0000aaaa-head"
    );
}

#[test]
fn reads_the_minor_off_a_running_helm_chart() {
    assert_eq!(chart_minor("rancher-2.16.0-9575c72-head").as_deref(), Some("2.16"));
    assert_eq!(chart_minor("rancher-2.14.3").as_deref(), Some("2.14"));
    assert_eq!(chart_minor("cert-manager-v1.16.3"), None);

    // Published without a patch component -- the SHA runs straight into the minor.
    assert_eq!(
        chart_minor("rancher-2.16-ffbd1cc914559930ba6aaa03bc434ef32aefe490-head").as_deref(),
        Some("2.16")
    );

    // Nothing numeric to read is not a minor.
    assert_eq!(chart_minor("rancher-devel"), None);
    assert_eq!(chart_minor("rancher-v2.16.0"), None);
}

#[test]
fn reads_the_minor_off_a_k3s_version() {
    assert_eq!(minor_of("v1.36.3+k3s1").as_deref(), Some("v1.36"));
    assert_eq!(minor_of("v1.36.3").as_deref(), Some("v1.36"));
    assert_eq!(minor_of("stable"), None);
}

#[test]
fn parses_the_k3s_channels_payload() {
    // Trimmed from the real https://update.k3s.io/v1-release/channels response.
    let body = r#"{"type":"collection","data":[
        {"id":"stable","type":"channel","name":"stable","latest":"v1.36.3+k3s1"},
        {"id":"testing","type":"channel","name":"testing"},
        {"id":"v1.36","type":"channel","name":"v1.36","latest":"v1.36.3+k3s1"}
    ]}"#;

    let value: serde_json::Value = serde_json::from_str(body).unwrap();
    let channels: Vec<K3sChannel> = value["data"]
        .as_array()
        .unwrap()
        .iter()
        .map(|c| K3sChannel {
            id: c["id"].as_str().unwrap().to_string(),
            latest: c["latest"].as_str().map(str::to_string),
        })
        .collect();

    assert_eq!(channel_latest(&channels, "v1.36").as_deref(), Some("v1.36.3+k3s1"));

    // A channel with no release yet offers none.
    assert_eq!(channel_latest(&channels, "testing"), None);
    assert_eq!(channel_latest(&channels, "v1.37"), None);
}

#[test]
fn splits_the_batched_remote_output_into_sections() {
    let output = "###apt\n191;137\n###reboot\nnone\n###k3s_version\nv1.36.3+k3s1\n\n###end\n";
    let sections = split_sections(output);

    assert_eq!(sections.get("apt").unwrap().trim(), "191;137");
    assert_eq!(sections.get("reboot").unwrap().trim(), "none");
    assert_eq!(sections.get("k3s_version").unwrap().trim(), "v1.36.3+k3s1");
    assert!(!sections.contains_key("end"));
}

#[test]
fn flags_pending_security_updates() {
    let mut sections = Sections::new();
    sections.insert("apt".to_string(), "191;137\n".to_string());
    let check = check_os_updates(&sections);
    assert_eq!(check.status, Status::Attention);
    assert!(check.detail.contains("137 security"));

    sections.insert("apt".to_string(), "3;0\n".to_string());
    assert_eq!(check_os_updates(&sections).status, Status::Okay);
}

#[test]
fn flags_a_missing_upgrade_plan() {
    let mut sections = Sections::new();
    sections.insert("plans".to_string(), r#"{"items":[]}"#.to_string());

    let check = check_upgrade_plan(&sections);
    assert_eq!(check.status, Status::Attention);
    assert!(check.detail.contains("no system-upgrade-controller Plan"));
}

#[test]
fn reports_a_healthy_channel_pinned_plan() {
    let mut sections = Sections::new();
    sections.insert(
        "plans".to_string(),
        r#"{"items":[{"metadata":{"name":"k3s-server"},
                      "spec":{"channel":"https://update.k3s.io/v1-release/channels/v1.36"},
                      "status":{"applying":[]}}]}"#
            .to_string(),
    );

    let check = check_upgrade_plan(&sections);
    assert_eq!(check.status, Status::Okay);
    assert!(check.detail.contains("k3s-server -> v1.36"));
}

#[test]
fn treats_a_registering_downstream_as_healthy_but_a_disconnected_one_as_not() {
    let registering = r#"{"items":[
        {"metadata":{"name":"local"},"status":{"conditions":[{"type":"Ready","status":"True"}]}},
        {"metadata":{"name":"c-m-5g5m2dxf"},"spec":{"displayName":"mo-test"},
         "status":{"conditions":[{"type":"Connected","status":"False"},
                                 {"type":"AgentDeployed","status":"True"}]}}]}"#;

    let mut sections = Sections::new();
    sections.insert("clusters".to_string(), registering.to_string());
    let check = check_clusters(&sections);
    assert_eq!(check.status, Status::Okay);
    assert!(check.detail.contains("mo-test (c-m-5g5m2dxf) registering"));

    let disconnected = r#"{"items":[
        {"metadata":{"name":"local"},"status":{"conditions":[{"type":"Ready","status":"True"}]}},
        {"metadata":{"name":"c-m-5g5m2dxf"},"spec":{"displayName":"mo-test"},
         "status":{"conditions":[{"type":"Connected","status":"False"},
                                 {"type":"AgentDeployed","status":"False"}]}}]}"#;

    sections.insert("clusters".to_string(), disconnected.to_string());
    assert_eq!(check_clusters(&sections).status, Status::Attention);
}

#[test]
fn flags_a_full_root_disk() {
    let mut sections = Sections::new();
    sections.insert(
        "disk".to_string(),
        "/dev/root  64891708 30112232  34762668  47% /\n19G\t/var/lib/rancher/k3s/agent/containerd\n"
            .to_string(),
    );

    let check = check_disk(&sections);
    assert_eq!(check.status, Status::Okay);
    assert_eq!(check.detail, "root 47% used, containerd 19G");

    sections.insert(
        "disk".to_string(),
        "/dev/root  64891708 60112232  4762668  93% /\n55G\t/var/lib/rancher/k3s/agent/containerd\n"
            .to_string(),
    );
    assert_eq!(check_disk(&sections).status, Status::Attention);
}

#[test]
fn reads_the_running_rancher_release_out_of_helm_list() {
    let raw = r#"[{"name":"cert-manager","chart":"cert-manager-v1.16.3","app_version":"v1.16.3"},
                  {"name":"rancher","chart":"rancher-2.16.0-9575c72-head","app_version":"v2.16.0-9575c72-head"}]"#;

    let running = running_rancher_chart(raw).expect("a rancher release");
    assert_eq!(running.chart, "rancher-2.16.0-9575c72-head");
    assert_eq!(running.app_version, "v2.16.0-9575c72-head");

    assert!(running_rancher_chart("[]").is_none());
    assert!(running_rancher_chart("not json").is_none());
}

#[test]
fn what_was_not_collected_is_unknown() {
    let none = Sections::new();
    for (check, name) in [
        (check_os_updates(&none), "os-updates"),
        (check_reboot_required(&none), "reboot"),
        (check_upgrade_plan(&none), "k3s-upgrade-plan"),
        (check_disk(&none), "disk"),
        (check_clusters(&none), "clusters"),
    ] {
        assert_eq!(check.name, name);
        says(&check, Status::Unknown, "not collected");
    }
}

#[test]
fn unreadable_apt_output_is_unknown() {
    says(
        &check_os_updates(&section("apt", "E: broken\n x;y \n")),
        Status::Unknown,
        "unparsed apt output: x;y",
    );
    says(&check_os_updates(&section("apt", "E: broken\n")), Status::Unknown, "unparsed apt output:");
    says(&check_os_updates(&section("apt", "noise\n +5 ; 0 ;9\n")), Status::Okay, "5 pending, 0 security");
    says(
        &check_os_updates(&section("apt", "4294967296;0\n")),
        Status::Unknown,
        "unparsed apt output: 4294967296;0",
    );
}

#[test]
fn a_pending_reboot_needs_attention() {
    says(
        &check_reboot_required(&section("reboot", "required\nlibc6 linux-base \n")),
        Status::Attention,
        "reboot required for: libc6 linux-base",
    );
    says(&check_reboot_required(&section("reboot", " required \n\n")), Status::Attention, "reboot required");
    says(&check_reboot_required(&section("reboot", "none\n")), Status::Okay, "not required");
    says(&check_reboot_required(&section("reboot", "maybe\n")), Status::Unknown, "not collected");
    says(&check_reboot_required(&section("reboot", "")), Status::Unknown, "not collected");
}

#[test]
fn disk_edges() {
    let disk = |line: &str| check_disk(&section("disk", line));
    says(&disk("/dev/root 1 1 1 79% /\n"), Status::Okay, "root 79% used, containerd unknown");
    says(&disk("/dev/root 1 1 1 80% /\nunreadable containerd\n"), Status::Attention, "root 80% used, containerd unreadable");
    says(&disk("/dev/root 1 1 1 256% /\n"), Status::Unknown, "unparsed df output: /dev/root 1 1 1 256% /");
    says(&disk(" df: broken \n"), Status::Unknown, "unparsed df output: df: broken");
    says(&disk(""), Status::Unknown, "not collected");
}

#[test]
fn unreadable_json_is_unknown() {
    says(&check_upgrade_plan(&section("plans", "nope")), Status::Unknown, "could not read plans");
    says(&check_clusters(&section("clusters", "{")), Status::Unknown, "could not read clusters");
    says(&check_clusters(&section("clusters", r#"{"items":7}"#)), Status::Unknown, "no management clusters returned");
}

#[test]
fn plans_tell_what_they_track() {
    let plans = r#" {"items":[
        {"metadata":{"name":"a"},"spec":{"channel":"v1.35","version":"v9"},"status":{"applying":["node"]}},
        {"metadata":{"name":"b"},"spec":{"version":"v1.36.3+k3s1"}},
        {"spec":{"channel":7}}]} "#;
    says(
        &check_upgrade_plan(&section("plans", plans)),
        Status::Attention,
        "a -> v1.35 (applying), b -> pinned v1.36.3+k3s1, <unnamed> -> no channel or version -- upgrade in flight",
    );
}

#[test]
fn clusters_tell_their_state() {
    let clusters = r#"{"items":[
        {"metadata":{"name":"local"},"spec":{"displayName":"here"}},
        {"metadata":{"name":"c-1"},"status":{"conditions":[{"type":"Connected","status":"True"}]}},
        {"status":{"conditions":[{"type":"Connected"},{"type":"Connected","status":"True"}]}}]}"#;
    says(
        &check_clusters(&section("clusters", clusters)),
        Status::Attention,
        "here (local) Ready=?, c-1 (c-1) Connected=True, <unnamed> (<unnamed>) Connected=?",
    );
}

#[test]
fn json_keeps_the_last_of_equal_keys_and_reads_escapes() {
    let raw = r#"[{"name":"x","name":"rancher","chart":"rancher-2.16.0","app_version":null}]"#;
    let running = running_rancher_chart(raw).unwrap();
    assert_eq!(running.chart, "rancher-2.16.0");
    assert_eq!(running.app_version, "");
    // The list has to be one.
    assert!(running_rancher_chart(r#"{"name":"rancher"}"#).is_none());
}

#[test]
fn k3s_is_held_against_its_channel() {
    let found = |latest: &str| Ok(Some(latest.to_string()));
    says(&check_k3s_version(None, &found("v1.36.3+k3s1")), Status::Unknown, "not collected");
    says(&check_k3s_version(Some("stable"), &Ok(None)), Status::Unknown, "running stable (unparsed)");
    says(
        &check_k3s_version(Some("v1.36.3+k3s1"), &found("v1.36.3+k3s1")),
        Status::Okay,
        "v1.36.3+k3s1 (current for channel v1.36)",
    );
    says(
        &check_k3s_version(Some("v1.36.2+k3s1"), &found("v1.36.3+k3s1")),
        Status::Attention,
        "running v1.36.2+k3s1, channel v1.36 offers v1.36.3+k3s1",
    );
    says(
        &check_k3s_version(Some("v1.36.2+k3s1"), &Ok(None)),
        Status::Unknown,
        "running v1.36.2+k3s1, no channel v1.36 upstream",
    );
    says(
        &check_k3s_version(Some("v1.36.2+k3s1"), &Err("timed out".to_string())),
        Status::Unknown,
        "running v1.36.2+k3s1, channel lookup failed: timed out",
    );
    assert_eq!(channel_to_look_up(Some("v1.36.2+k3s1")).as_deref(), Some("v1.36"));
    assert_eq!(channel_to_look_up(Some("latest")), None);
    assert_eq!(channel_to_look_up(None), None);
}

fn running(chart: &str) -> RunningChart {
    RunningChart { chart: chart.to_string(), app_version: "v2.16.0-9575c72-head".to_string() }
}

#[test]
fn rancher_is_held_against_the_newest_head() {
    let repo = "https://charts.optimus.rancher.io/server-charts/latest//";
    let url = "https://charts.optimus.rancher.io/server-charts/latest/index.yaml";
    let chart = running("rancher-2.16.0-9575c72-head");
    let reply = IndexReply::Index(index(INDEX));

    assert_eq!(index_to_fetch(Some(&chart), repo).as_deref(), Some(url));
    says(
        &check_rancher_chart(Some(&chart), repo, &reply),
        Status::Attention,
        "running rancher-2.16.0-9575c72-head (app v2.16.0-9575c72-head); newest head is 2.16.0-0000aaaa-head (app v2.16.0-0000aaaa-head) published 2026-08-18 15:38 UTC",
    );
    says(
        &check_rancher_chart(Some(&running("rancher-2.16.0-0000aaaa-head")), repo, &reply),
        Status::Okay,
        "rancher-2.16.0-0000aaaa-head is the newest head (2026-08-18)",
    );
    says(
        &check_rancher_chart(Some(&running("rancher-2.14.0")), repo, &reply),
        Status::Unknown,
        &format!("running rancher-2.14.0, no 2.14.*-head charts in {}", url),
    );
    says(
        &check_rancher_chart(Some(&chart), repo, &IndexReply::FetchFailed("a".to_string())),
        Status::Unknown,
        "running rancher-2.16.0-9575c72-head, index fetch failed: a",
    );
    says(
        &check_rancher_chart(Some(&chart), repo, &IndexReply::ReadFailed("b".to_string())),
        Status::Unknown,
        "running rancher-2.16.0-9575c72-head, index read failed: b",
    );
    says(
        &check_rancher_chart(Some(&chart), repo, &IndexReply::ParseFailed("c".to_string())),
        Status::Unknown,
        "running rancher-2.16.0-9575c72-head, index parse failed: c",
    );
}

#[test]
fn rancher_without_a_minor_needs_no_index() {
    let reply = IndexReply::Index(ChartIndex { entries: vec![] });
    assert_eq!(index_to_fetch(None, "x"), None);
    assert_eq!(index_to_fetch(Some(&running("rancher-devel")), "x"), None);
    says(
        &check_rancher_chart(None, "x", &reply),
        Status::Unknown,
        "no `rancher` release found in cattle-system",
    );
    says(
        &check_rancher_chart(Some(&running("rancher-devel")), "x", &reply),
        Status::Unknown,
        "running rancher-devel (unparsed)",
    );
}

#[test]
fn of_heads_published_together_the_last_listed_is_picked() {
    let at = "2026-08-18T15:38:04Z";
    let index = ChartIndex {
        entries: vec![(
            "rancher".to_string(),
            vec![
                entry("2.16.0-a-head", "", at),
                entry("2.16.0-b-head", "", at),
                entry("2.16.0-c-head", "", "2026-08-18T15:38:03Z"),
            ],
        )],
    };
    assert_eq!(newest_head_chart(&index, "2.16").unwrap().version, "2.16.0-b-head");
    // `2.1` is not a minor of `2.16`.
    assert!(newest_head_chart(&index, "2.1").is_none());
}

#[test]
fn sections_without_a_marker_are_dropped_and_repeated_ones_overwritten() {
    let sections = split_sections("noise\n###a\n1\r\n2\n###end\nlost\n###a\n3\n###b");
    assert_eq!(sections.get("a"), Some("3\n"));
    assert_eq!(sections.get("b"), Some(""));
    assert_eq!(sections.get("c"), None);
    assert_eq!(split_sections("###a\n1\r\n2\n###end\n").get("a"), Some("1\n2\n"));
}
