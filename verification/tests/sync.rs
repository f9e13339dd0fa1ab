use herdr_updater::config::{Config, Policy};
use herdr_updater::exec::{ExecError, Output};
use herdr_updater::fleet::{FleetPlugin, HostState};
use herdr_updater::history::EventKind;
use herdr_updater::plugins::{InstalledPlugin, PluginSource};
use herdr_updater::sync::{
    apply_plugin, apply_settings, check_plugin, cmd_sync, derive_local, event_for, export_desired,
    fingerprint_args, load_or_derive, local_protocol, needs_change, notify_hint, operation_timeout, plan,
    plan_host, plugin_ran, read_desired_or_error, read_regular, remote_fingerprint, render_report,
    report_code, settings_args, settings_ran, validate_desired, wants_fingerprint, write_refusal,
    CommandRequest, Course, DesiredPlugin, DesiredSource, DesiredState, RegularFile, StepOutcome,
    Surveyed, SyncAction, SyncDecision, SyncReport, SyncRun, SyncStep,
};
use herdr_updater::textmap::TextMap;

fn desired() -> DesiredState {
    DesiredState {
        schema_version: 1,
        generated_unix_seconds: 1,
        settings: Config::default(),
        plugins: vec![DesiredPlugin {
            plugin_id: "sample".into(),
            source: "diegopzz/herdr-sample".into(),
            revision: "a".repeat(40),
            enabled: true,
            min_herdr_version: Some("0.8.2".into()),
        }],
    }
}

fn host(plugin: Option<FleetPlugin>) -> HostState {
    let mut plugins = TextMap::new();
    if let Some(plugin) = plugin {
        plugins.insert("sample".into(), plugin);
    }
    HostState {
        host: "laptop".into(),
        target: "laptop".into(),
        local: false,
        version: Some("0.8.2".into()),
        protocol: Some(20),
        server_running: true,
        plugins,
        plugin_error: None,
        error: None,
    }
}

fn github(revision: &str, enabled: bool) -> FleetPlugin {
    FleetPlugin {
        version: Some("0.9.0".into()),
        source: "github".into(),
        revision: Some(revision.into()),
        owner: Some("diegopzz".into()),
        repo: Some("herdr-sample".into()),
        subdir: None,
        requested_ref: None,
        enabled,
    }
}

fn installed(id: &str) -> InstalledPlugin {
    InstalledPlugin {
        plugin_id: id.into(),
        version: Some("1.0.0".into()),
        min_herdr_version: Some("0.8.2".into()),
        plugin_root: None,
        source: Some(PluginSource {
            kind: "github".into(),
            owner: Some("diegopzz".into()),
            repo: Some("herdr-sample".into()),
            subdir: None,
            requested_ref: None,
            resolved_commit: Some("a".repeat(40)),
        }),
        enabled: true,
    }
}

fn decision(action: SyncAction) -> SyncDecision {
    SyncDecision {
        host: "laptop".into(),
        target: "laptop".into(),
        plugin_id: "sample".into(),
        source: Some("diegopzz/herdr-sample".into()),
        previous: Some("b".repeat(40)),
        desired: Some("a".repeat(40)),
        action,
    }
}

fn report(decisions: Vec<SyncDecision>, warnings: Vec<String>) -> SyncReport {
    SyncReport {
        desired_path: "desired.toml".into(),
        desired_exists: true,
        generated_unix_seconds: 0,
        decisions,
        warnings,
    }
}

fn ran(stdout: &str) -> Result<Output, ExecError> {
    Ok(Output { code: 0, stdout: stdout.into(), stderr: String::new() })
}

#[test]
fn missing_plugin_is_an_install() {
    let decisions = plan_host(&host(None), &desired());
    assert!(matches!(decisions[0].action, SyncAction::Install));
}

#[test]
fn linked_remote_plugin_is_held() {
    let decisions = plan_host(
        &host(Some(FleetPlugin {
            version: Some("1.0.0".into()),
            source: "local".into(),
            revision: None,
            owner: None,
            repo: None,
            subdir: None,
            requested_ref: None,
            enabled: true,
        })),
        &desired(),
    );
    assert!(matches!(decisions[0].action, SyncAction::Hold(_)));
}

#[test]
fn same_source_with_different_revision_updates() {
    let decisions = plan_host(&host(Some(github(&"b".repeat(40), true))), &desired());
    assert!(matches!(decisions[0].action, SyncAction::Update));
}

#[test]
fn desired_state_requires_exact_commits() {
    let mut state = desired();
    state.plugins[0].revision = "main".into();
    assert!(validate_desired(&state, "desired.toml").is_err());
}

#[test]
fn warnings_make_a_sync_incomplete() {
    let report = report(Vec::new(), vec!["no connected hosts".into()]);
    assert_eq!(report_code(&report), 1);
}

#[test]
fn matching_plugins_are_current_and_flags_are_switched() {
    let revision = "a".repeat(40);
    let current = plan_host(&host(Some(github(&revision, true))), &desired());
    assert_eq!(current[0].action, SyncAction::Current);
    let disabled = plan_host(&host(Some(github(&revision, false))), &desired());
    assert_eq!(disabled[0].action, SyncAction::Enable);
    let mut off = desired();
    off.plugins[0].enabled = false;
    let enabled = plan_host(&host(Some(github(&revision, true))), &off);
    assert_eq!(enabled[0].action, SyncAction::Disable);
}

#[test]
fn changes_are_held_without_compatibility() {
    let mut old = desired();
    old.plugins[0].min_herdr_version = None;
    assert!(matches!(plan_host(&host(None), &old)[0].action, SyncAction::Hold(_)));
    let mut newer = desired();
    newer.plugins[0].min_herdr_version = Some("9.0.0".into());
    assert!(matches!(plan_host(&host(None), &newer)[0].action, SyncAction::Hold(_)));
}

#[test]
fn a_remote_only_plugin_is_never_uninstalled() {
    let mut state = host(Some(github(&"a".repeat(40), true)));
    state.plugins.insert("extra".into(), github(&"c".repeat(40), true));
    let decisions = plan_host(&state, &desired());
    let extra = decisions.iter().find(|d| d.plugin_id == "extra").unwrap();
    assert!(matches!(extra.action, SyncAction::Hold(_)));
}

#[test]
fn an_unreachable_host_is_left_alone() {
    let mut dead = host(None);
    dead.error = Some("timed out".into());
    let made = plan(
        "desired.toml",
        &desired(),
        true,
        Vec::new(),
        &vec![Surveyed { state: dead, fingerprint: None }],
        true,
        &Vec::new(),
        "",
    );
    assert!(made.decisions.iter().all(|d| matches!(
        d.action,
        SyncAction::Offline(_) | SyncAction::Hold(_)
    )));
    assert!(!needs_change(&made));
}

#[test]
fn a_protocol_split_holds_a_host() {
    let mut local = host(Some(github(&"a".repeat(40), true)));
    local.local = true;
    local.host = "here".into();
    let mut other = host(None);
    other.protocol = Some(21);
    let hosts = vec![
        Surveyed { state: local, fingerprint: None },
        Surveyed { state: other, fingerprint: None },
    ];
    let made = plan("d", &desired(), true, Vec::new(), &hosts, true, &Vec::new(), "");
    assert!(made
        .decisions
        .iter()
        .filter(|d| d.host == "laptop")
        .all(|d| matches!(d.action, SyncAction::Hold(_))));
}

#[test]
fn a_plan_names_what_is_missing() {
    let made = plan(
        "desired.toml",
        &desired(),
        true,
        Vec::new(),
        &Vec::new(),
        false,
        &vec!["missing-host".to_string()],
        "",
    );
    assert!(made.warnings.iter().any(|w| w.contains("no fleet hosts")));
    assert!(made.warnings.iter().any(|w| w.contains("missing-host")));
    assert_eq!(report_code(&made), 1);
    assert!(render_report(&made).iter().any(|line| line.contains("missing-host")));
}

#[test]
fn a_desired_state_is_derived_from_this_machine() {
    let linked = InstalledPlugin {
        source: Some(PluginSource {
            kind: "local".into(),
            owner: None,
            repo: None,
            subdir: None,
            requested_ref: None,
            resolved_commit: None,
        }),
        ..installed("linked")
    };
    let (state, warnings) =
        derive_local(&Config::default(), &vec![installed("sample"), linked], 7).unwrap();
    assert_eq!(state.generated_unix_seconds, 7);
    assert_eq!(state.plugins.len(), 1);
    assert_eq!(state.plugins[0].revision, "a".repeat(40));
    assert_eq!(state.plugins[0].min_herdr_version.as_deref(), Some("0.8.2"));
    assert!(warnings.iter().any(|w| w.contains("linked")));
    assert!(validate_desired(&state, "d").is_ok());
    let lines = export_desired(&state, "/d/desired.toml", &warnings);
    assert!(lines.iter().any(|line| line.contains("/d/desired.toml")));
}

#[test]
fn files_are_read_only_when_regular_and_bounded() {
    let found = |regular, bytes| RegularFile::Found { regular, bytes, content: Ok("x".into()) };
    assert_eq!(read_regular("d", &found(true, 1)).unwrap(), "x");
    assert!(read_regular("d", &found(false, 1)).is_err());
    assert!(read_regular("d", &found(true, u64::MAX)).is_err());
    assert_eq!(read_regular("d", &RegularFile::Missing).unwrap_err(), "d not found");
    assert!(read_regular("d", &RegularFile::Uninspectable("io".into())).is_err());
    assert!(write_refusal("d", 1, Some(false)).is_some());
    assert!(write_refusal("d", 1, Some(true)).is_none());
}

#[test]
fn the_desired_state_comes_from_its_file() {
    let file = RegularFile::Found { regular: true, bytes: 1, content: Ok("x".into()) };
    assert!(matches!(
        load_or_derive("d", &file, Ok(desired())),
        Ok(DesiredSource::File(_))
    ));
    assert!(matches!(
        load_or_derive("d", &RegularFile::Missing, Err(String::new())),
        Ok(DesiredSource::Live(_))
    ));
    assert!(load_or_derive("d", &file, Err("bad".into())).is_err());
    assert!(read_desired_or_error("d", &file, Ok(desired()), "1", "1").is_ok());
}

#[test]
fn writing_needs_to_be_asked_for() {
    let hosts = Vec::new();
    let request = |mode, yes| CommandRequest { mode, hosts: &hosts, json: false, yes };
    assert_eq!(cmd_sync(&request("apply", false), Policy::Notify), Course::Plan);
    assert_eq!(cmd_sync(&request("apply", true), Policy::Notify), Course::Apply);
    assert_eq!(cmd_sync(&request("apply", false), Policy::Auto), Course::Apply);
    assert_eq!(cmd_sync(&request("plan", true), Policy::Auto), Course::Plan);
    assert_eq!(cmd_sync(&request("export", false), Policy::Notify), Course::Export);
    assert_eq!(cmd_sync(&request("mystery", true), Policy::Auto), Course::Refuse);
    let changing = report(vec![decision(SyncAction::Update)], Vec::new());
    assert!(notify_hint(&request("apply", false), Policy::Notify, &changing).is_some());
    assert!(notify_hint(&request("apply", true), Policy::Notify, &changing).is_none());
}

#[test]
fn an_operation_is_one_quoted_script() {
    let wanted = desired();
    let args = apply_plugin("laptop", &wanted.plugins[0], &SyncAction::Update, 20)
        .unwrap()
        .unwrap();
    assert!(args.iter().any(|arg| arg.contains(&"a".repeat(40))));
    assert!(apply_plugin("laptop", &wanted.plugins[0], &SyncAction::Current, 20)
        .unwrap()
        .is_none());
    assert!(apply_plugin("-x", &wanted.plugins[0], &SyncAction::Update, 20).is_err());
    assert_eq!(operation_timeout(20), 120);
    assert_eq!(operation_timeout(300), 300);
    assert!(fingerprint_args("laptop", 20).is_ok());
    assert!(settings_args("-x", 20).is_err());
}

#[test]
fn an_operation_counts_only_when_it_shows() {
    let wanted = desired();
    let after = host(Some(github(&"a".repeat(40), true)));
    assert!(plugin_ran(&ran("")).is_ok());
    assert!(check_plugin(&wanted.plugins[0], &after).is_ok());
    let unchanged = host(Some(github(&"b".repeat(40), true)));
    assert_eq!(
        check_plugin(&wanted.plugins[0], &unchanged).unwrap_err(),
        "post-sync plugin verification did not match desired state"
    );
    assert_eq!(
        check_plugin(&wanted.plugins[0], &host(None)).unwrap_err(),
        "plugin is absent after remote operation"
    );
    assert!(plugin_ran(&Err(ExecError::Timeout { secs: 1 })).is_err());
    assert!(apply_settings(Ok("0123456789abcdef".into()), "0123456789abcdef").is_ok());
    assert!(apply_settings(Ok("0".into()), "1").is_err());
    assert!(settings_ran(&ran("")).is_ok());
    assert!(remote_fingerprint(&Err(ExecError::Timeout { secs: 1 })).is_err());
}

#[test]
fn a_run_goes_through_every_decision() {
    let wanted = desired();
    let made = report(
        vec![
            decision(SyncAction::Update),
            decision(SyncAction::Current),
            decision(SyncAction::Hold("no".into())),
        ],
        Vec::new(),
    );
    let run = SyncRun::begin(made);
    assert!(matches!(run.step(&wanted), SyncStep::Plugin(0)));
    let run = run.advance(&wanted, StepOutcome::Recorded(Ok(())));
    assert!(matches!(run.step(&wanted), SyncStep::Nothing));
    let run = run.advance(&wanted, StepOutcome::NotRun);
    let run = run.advance(&wanted, StepOutcome::NotRun);
    assert!(run.current().is_none());
    assert_eq!(run.changed.len(), 1);
    assert_eq!(run.blocked.len(), 1);
    assert_ne!(run.exit_code(), 0);
    assert!(!run.render().is_empty());
}

#[test]
fn a_failed_step_is_never_green() {
    let wanted = desired();
    let run = SyncRun::begin(report(vec![decision(SyncAction::Update)], Vec::new()))
        .advance(&wanted, StepOutcome::Failed("boom".into()));
    assert_eq!(run.failures.len(), 1);
    assert_ne!(run.exit_code(), 0);
    let fine = SyncRun::begin(report(vec![decision(SyncAction::Update)], Vec::new()))
        .advance(&wanted, StepOutcome::Recorded(Ok(())));
    assert_eq!(fine.exit_code(), 0);
}

#[test]
fn what_was_synced_is_recorded() {
    let event = event_for(&decision(SyncAction::Update));
    assert_eq!(event.kind, EventKind::FleetPluginSynced);
    let mut settings = decision(SyncAction::SyncSettings);
    settings.plugin_id = "@settings".into();
    assert_eq!(event_for(&settings).kind, EventKind::FleetConfigSynced);
}

#[test]
fn settings_are_compared_only_where_they_are_shared() {
    assert!(wants_fingerprint(&host(None), Some(20), true));
    assert!(!wants_fingerprint(&host(None), Some(20), false));
    let mut local = host(None);
    local.local = true;
    assert!(!wants_fingerprint(&local, Some(20), true));
}

#[test]
fn a_run_is_green_only_when_everything_is_settled() {
    let wanted = desired();
    let warned = report(vec![decision(SyncAction::Current)], vec!["no hosts".into()]);
    let run = SyncRun::begin(warned).advance(&wanted, StepOutcome::NotRun);
    assert_eq!(run.exit_code(), 1);
    let unrecorded = SyncRun::begin(report(vec![decision(SyncAction::Update)], Vec::new()))
        .advance(&wanted, StepOutcome::Recorded(Err("disk full".into())));
    assert_eq!(unrecorded.exit_code(), 2);
    assert_eq!(unrecorded.failures, vec!["disk full".to_string()]);
    let settled =
        report(vec![decision(SyncAction::Current), decision(SyncAction::Update)], Vec::new());
    let run = SyncRun::begin(settled)
        .advance(&wanted, StepOutcome::NotRun)
        .advance(&wanted, StepOutcome::Recorded(Ok(())));
    assert_eq!(run.exit_code(), 0);
}

#[test]
fn the_protocol_of_this_machine_is_that_of_the_local_host() {
    let mut here = host(None);
    here.local = true;
    here.protocol = Some(20);
    let mut there = host(None);
    there.protocol = Some(18);
    let hosts = vec![
        Surveyed { state: there, fingerprint: None },
        Surveyed { state: here, fingerprint: None },
    ];
    assert_eq!(local_protocol(&hosts), Some(20));
    assert_eq!(local_protocol(&Vec::new()), None);
}
