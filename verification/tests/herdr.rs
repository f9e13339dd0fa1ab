use herdr_updater::exec::{ExecError, Output};
use herdr_updater::herdr::{
    apply, failure_of, gate, hold_text, inspect, manifest, manifest_args, outdated_integrations,
    relate, status, ApplyEvent, ApplyStage, Capabilities, ClientStatus, CoreRelation, CoreState,
    Hold, Manifest, ServerStatus, StatusJson,
};

const REAL: &str = r#"{"client":{"version":"0.8.2","channel":"stable","protocol":20,"binary":"/root/.local/bin/herdr","session":null},"server":{"status":"running","running":true,"version":"0.8.2","protocol":20,"capabilities":{"live_handoff":true,"detached_server_daemon":true},"compatible":true,"socket":"/root/.config/herdr/herdr.sock","session":null,"restart_needed":false},"update":{"restart_needed":false}}"#;

fn text(value: &serde_json::Value, name: &str) -> Option<String> {
    value[name].as_str().map(str::to_string)
}

fn read(source: &str) -> Option<StatusJson> {
    let value: serde_json::Value = serde_json::from_str(source).ok()?;
    let client = &value["client"];
    let server = &value["server"];
    Some(StatusJson {
        client: ClientStatus {
            version: text(client, "version")?,
            channel: text(client, "channel"),
            protocol: client["protocol"].as_u64()? as u32,
            binary: text(client, "binary"),
        },
        server: server.as_object().map(|_| ServerStatus {
            status: text(server, "status"),
            running: server["running"].as_bool().unwrap_or(false),
            version: text(server, "version"),
            protocol: server["protocol"].as_u64().map(|n| n as u32),
            compatible: server["compatible"].as_bool(),
            capabilities: Capabilities {
                live_handoff: server["capabilities"]["live_handoff"].as_bool().unwrap_or(false),
                detached_server_daemon: server["capabilities"]["detached_server_daemon"]
                    .as_bool()
                    .unwrap_or(false),
            },
            restart_needed: server["restart_needed"].as_bool().unwrap_or(false),
        }),
    })
}

fn ran(stdout: &str) -> Result<Output, ExecError> {
    Ok(Output { code: 0, stdout: stdout.into(), stderr: String::new() })
}

fn state(installed: &str, latest: Option<&str>, running: bool, handoff: bool) -> CoreState {
    CoreState {
        installed: installed.into(),
        channel: Some("stable".into()),
        binary: None,
        protocol: 20,
        server_status: Some("running".into()),
        server_running: running,
        server_version: Some(installed.into()),
        server_protocol: Some(20),
        compatible: Some(true),
        live_handoff: handoff,
        detached_server_daemon: true,
        restart_needed: false,
        latest: latest.map(|s| s.to_string()),
        latest_protocol: Some(20),
        relation: latest.map_or(CoreRelation::Unknown, |l| relate(installed, l)),
        channel_mismatch: false,
        update_available: latest.is_some_and(|l| relate(installed, l) == CoreRelation::Behind),
        protocol_change: false,
        error: None,
    }
}

#[test]
fn parses_real_herdr_status() {
    let s = read(REAL).unwrap();
    assert_eq!(s.client.version, "0.8.2");
    assert_eq!(s.client.protocol, 20);
    let srv = s.server.unwrap();
    assert!(srv.running);
    assert!(srv.capabilities.live_handoff);
}

#[test]
fn unknown_fields_do_not_break_parsing() {
    let with_extra = REAL.replace(r#""client":{"#, r#""client":{"brand_new_key":1,"#);
    assert!(read(&with_extra).is_some());
}

#[test]
fn up_to_date_is_held() {
    assert_eq!(gate(&state("0.8.2", Some("0.8.2"), true, true), false), Err(Hold::UpToDate));
}

#[test]
fn newer_upstream_with_handoff_is_allowed() {
    assert_eq!(gate(&state("0.8.2", Some("0.9.0"), true, true), false), Ok(()));
}

#[test]
fn running_server_without_live_handoff_is_held() {
    assert_eq!(
        gate(&state("0.8.2", Some("0.9.0"), true, false), false),
        Err(Hold::NoLiveHandoff)
    );
}

#[test]
fn no_server_running_needs_no_handoff() {
    assert_eq!(gate(&state("0.8.2", Some("0.9.0"), false, false), false), Ok(()));
}

#[test]
fn a_failed_check_never_becomes_an_update() {
    let mut s = state("0.8.2", None, true, true);
    s.error = Some("network down".into());
    assert!(matches!(gate(&s, false), Err(Hold::Unknown(_))));
}

#[test]
fn an_installed_core_ahead_of_the_manifest_is_never_downgraded() {
    let ahead = state("0.9.0", Some("0.8.2"), true, true);
    assert_eq!(ahead.relation, CoreRelation::Ahead);
    assert!(!ahead.update_available);
    assert_eq!(gate(&ahead, false), Err(Hold::LocalIsAhead));
}

#[test]
fn a_prerelease_client_is_ahead_of_the_release_it_leads_to() {
    assert_eq!(
        relate("0.9.0-rc.1", "0.8.2"),
        CoreRelation::Ahead,
        "a release candidate is still newer than the last stable"
    );
    assert_eq!(relate("0.9.0-rc.1", "0.9.0"), CoreRelation::Behind);
}

#[test]
fn text_versions_are_unorderable_rather_than_an_update() {
    let odd = state("nightly-20260830", Some("0.9.0"), true, true);
    assert_eq!(odd.relation, CoreRelation::Unknown);
    assert!(!odd.update_available);
    assert_eq!(gate(&odd, false), Err(Hold::Unorderable));
}

#[test]
fn a_channel_the_manifest_does_not_describe_is_held_until_opted_in() {
    let mut s = state("0.8.2", Some("0.9.0"), false, false);
    s.channel = Some("nightly".into());
    s.channel_mismatch = true;
    assert!(matches!(gate(&s, false), Err(Hold::ChannelMismatch(c)) if c == "nightly"));
    assert_eq!(gate(&s, true), Ok(()));
}

#[test]
fn version_ordering_drives_update_available_not_inequality() {
    // 0.10.0 is newer than 0.9.0 despite sorting before it as text.
    assert!(state("0.9.0", Some("0.10.0"), false, false).update_available);
    assert!(!state("0.10.0", Some("0.9.0"), false, false).update_available);
}

#[test]
fn parses_only_outdated_installed_integrations() {
    let output = "codex: outdated (v7 -> v8)\nclaude: current (v8)\npi: not installed\n";
    assert_eq!(outdated_integrations(output), vec!["codex"]);
}

#[test]
fn an_integration_name_is_a_plain_word() {
    assert!(outdated_integrations("bad name: outdated\n: outdated\na;b: outdated\n").is_empty());
    assert_eq!(outdated_integrations(" Pi_2 : Outdated\n"), vec!["Pi_2"]);
}

#[test]
fn holds_are_explained() {
    assert_eq!(hold_text(&Hold::UpToDate), "already current");
    assert!(hold_text(&Hold::ChannelMismatch("nightly".into())).contains("\"nightly\""));
    assert_eq!(hold_text(&Hold::Unknown("boom".into())), "boom");
    assert!(hold_text(&Hold::LocalIsAhead).contains("downgrade"));
}

#[test]
fn an_inspection_relates_status_and_manifest() {
    let published = Manifest { version: "0.9.0".into(), protocol: 21 };
    let s = inspect(Ok(read(REAL).unwrap()), Ok(published));
    assert_eq!(s.relation, CoreRelation::Behind);
    assert!(s.update_available);
    assert!(s.protocol_change);
    assert_eq!(s.latest.as_deref(), Some("0.9.0"));
    let offline = inspect(Ok(read(REAL).unwrap()), Err("offline".into()));
    assert!(offline.error.is_some());
    assert!(!offline.update_available);
    let broken = inspect(Err("no status".into()), Ok(Manifest { version: "1.0.0".into(), protocol: 1 }));
    assert_eq!(broken.error.as_deref(), Some("no status"));
}

#[test]
fn commands_that_fail_are_named() {
    assert!(status(&ran(REAL), Ok(read(REAL).unwrap())).is_ok());
    assert!(status(&ran("x"), Err("not json".into())).unwrap_err().contains("not json"));
    assert!(status(&Err(ExecError::Timeout { secs: 20 }), Err(String::new()))
        .unwrap_err()
        .contains("timed out after 20s"));
    assert!(manifest(false, &ran(""), Err("x".into())).is_err());
    assert!(manifest(true, &ran("{}"), Ok(Manifest { version: "1".into(), protocol: 2 })).is_ok());
    let bad = Ok(Output { code: 7, stdout: String::new(), stderr: "line one\ntwo".into() });
    assert_eq!(failure_of("step", &bad).unwrap(), "step exited 7: line one");
    assert_eq!(failure_of("step", &ran("")), None);
    assert_eq!(manifest_args().last().unwrap(), "https://herdr.dev/latest.json");
}

#[test]
fn an_update_is_verified_before_it_counts() {
    let before = state("0.8.2", Some("0.9.0"), true, true);
    let run = apply(&before, false).unwrap();
    assert_eq!(run.stage, ApplyStage::Update);
    assert!(run.args().contains(&"update".to_string()));
    let run = run.advance(ApplyEvent::Ran(ran(""))).unwrap();
    assert_eq!(run.stage, ApplyStage::Status);
    let mut after = read(REAL).unwrap();
    after.client.version = "0.9.0".into();
    if let Some(server) = &mut after.server {
        server.version = Some("0.9.0".into());
    }
    let run = run.advance(ApplyEvent::Status(Ok(after))).unwrap();
    assert_eq!(run.stage, ApplyStage::List);
    let run = run.advance(ApplyEvent::Ran(ran("codex: outdated (v7 -> v8)\n"))).unwrap();
    assert_eq!(run.stage, ApplyStage::Install(0));
    let run = run.advance(ApplyEvent::Ran(ran(""))).unwrap();
    assert_eq!(run.stage, ApplyStage::Verify);
    let run = run.advance(ApplyEvent::Ran(ran("codex: current (v8)\n"))).unwrap();
    assert_eq!(run.stage, ApplyStage::Done);
    let result = run.result().unwrap();
    assert_eq!(result.installed, "0.9.0");
    assert_eq!(result.integrations_refreshed, vec!["codex"]);
}

#[test]
fn an_update_that_did_not_take_is_a_failure() {
    let before = state("0.8.2", Some("0.9.0"), true, true);
    let run = apply(&before, false).unwrap().advance(ApplyEvent::Ran(ran(""))).unwrap();
    assert!(run.advance(ApplyEvent::Status(Ok(read(REAL).unwrap()))).is_err());
    assert!(apply(&state("0.9.0", Some("0.8.2"), true, true), false).is_err());
}
