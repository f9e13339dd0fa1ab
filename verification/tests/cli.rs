use herdr_updater::catalog::{Platform, SortMode};
use herdr_updater::cli::{
    allows_protocol_change, apply_code, changes, cmd_check, decide_core, exit_code, herdr_bin,
    is_idle, operand, parse, plan_line, query, scope, search_limit, since, verb, Scope, Verb, VERSION,
};
use herdr_updater::config::{Config, Policy};
use herdr_updater::fleet::{missing_hosts, Host};
use herdr_updater::herdr::{
    inspect, Capabilities, ClientStatus, CoreState, Manifest, ServerStatus, StatusJson,
};
use herdr_updater::plugins::{Channel, Decision, PluginState, Relation};
use herdr_updater::schedule::{cmd_schedule, describe, read_state, Presence, StateFile};
use herdr_updater::sync::{plan, report_code, DesiredState};

const CURRENT_STATUS: &str = r#"{"client":{"version":"0.8.2","channel":"stable","protocol":20,"binary":"/fake/herdr"},"server":{"status":"running","running":true,"version":"0.8.2","protocol":20,"capabilities":{"live_handoff":true,"detached_server_daemon":true},"compatible":true,"restart_needed":false}}"#;

fn text(value: &serde_json::Value, name: &str) -> Option<String> {
    value[name].as_str().map(str::to_string)
}

fn status(source: &str) -> Result<StatusJson, String> {
    let value: serde_json::Value = serde_json::from_str(source).map_err(|e| e.to_string())?;
    let client = &value["client"];
    let server = &value["server"];
    Ok(StatusJson {
        client: ClientStatus {
            version: text(client, "version").unwrap(),
            channel: text(client, "channel"),
            protocol: client["protocol"].as_u64().unwrap() as u32,
            binary: text(client, "binary"),
        },
        server: Some(ServerStatus {
            status: text(server, "status"),
            running: server["running"].as_bool().unwrap(),
            version: text(server, "version"),
            protocol: server["protocol"].as_u64().map(|n| n as u32),
            compatible: server["compatible"].as_bool(),
            capabilities: Capabilities { live_handoff: true, detached_server_daemon: true },
            restart_needed: false,
        }),
    })
}

fn manifest(source: &str) -> Result<Manifest, String> {
    let value: serde_json::Value = serde_json::from_str(source).map_err(|e| e.to_string())?;
    Ok(Manifest {
        version: text(&value, "version").unwrap(),
        protocol: value["protocol"].as_u64().unwrap() as u32,
    })
}

fn inspected(status_source: &str, latest: &str) -> CoreState {
    inspect(status(status_source), manifest(latest))
}

fn code(state: &CoreState) -> (Decision, i32) {
    let decision = decide_core(state, false, false);
    let core = Some((decision.clone(), state.update_available));
    let code = exit_code(&core, &Vec::new());
    (decision, code)
}

fn words(line: &str) -> Vec<String> {
    line.split_whitespace().map(str::to_string).collect()
}

fn empty_desired() -> DesiredState {
    DesiredState {
        schema_version: 1,
        generated_unix_seconds: 1,
        settings: Config::default(),
        plugins: Vec::new(),
    }
}

fn plugin(relation: Relation) -> PluginState {
    PluginState {
        plugin_id: "sample".into(),
        version: None,
        plugin_root: None,
        source_kind: "github".into(),
        owner: Some("o".into()),
        repo: Some("r".into()),
        subdir: None,
        requested_ref: None,
        installed_sha: Some("1".into()),
        remote_sha: Some("2".into()),
        channel: Channel::Branch,
        relation,
        update_available: false,
        error: None,
    }
}

#[test]
fn current_check_exits_zero() {
    let state = inspected(CURRENT_STATUS, r#"{"version":"0.8.2","protocol":20}"#);
    let (decision, code) = code(&state);
    assert_eq!(code, 0);
    assert_eq!(decision, Decision::Current);
}

#[test]
fn available_protocol_change_exits_one_and_is_held() {
    let state = inspected(CURRENT_STATUS, r#"{"version":"0.9.0","protocol":21}"#);
    let (decision, code) = code(&state);
    assert_eq!(code, 1);
    assert!(matches!(decision, Decision::Hold(_)));
    assert_eq!(decide_core(&state, false, true), Decision::Update);
}

#[test]
fn malformed_status_is_unknown_not_current() {
    let state = inspected("not-json", r#"{"version":"0.8.2","protocol":20}"#);
    assert_eq!(code(&state).1, 2);
}

#[test]
fn bad_command_is_usage_error() {
    let args = parse(&words("bogus")).unwrap();
    assert_eq!(verb(&args.cmd).unwrap_err(), "unknown command: bogus");
}

#[test]
fn schedule_status_is_read_only_and_succeeds_without_an_installed_timer() {
    let state = read_state("schedule-state.json", &StateFile::Missing);
    let status = describe(Platform::Linux, "/timer", &Presence::Missing, &None, state);
    assert!(!status.as_ref().unwrap().installed);
    assert_eq!(cmd_schedule("status", &status, 0).0, 0);
}

#[test]
fn sync_plan_without_connected_hosts_is_incomplete_not_green() {
    let report =
        plan("d", &empty_desired(), true, Vec::new(), &Vec::new(), false, &Vec::new(), "");
    assert_eq!(report_code(&report), 1);
    assert!(report.warnings.iter().any(|warning| warning.contains("no fleet hosts")));
}

#[test]
fn sync_plan_reports_an_unmatched_host_selection() {
    let args = parse(&words("sync plan --hosts missing-host --json")).unwrap();
    assert!(args.json);
    let fleet = vec![Host { name: "laptop".into(), target: "laptop".into() }];
    let missing = missing_hosts(&fleet, &args.hosts);
    assert_eq!(missing, vec!["missing-host".to_string()]);
    let report =
        plan("d", &empty_desired(), true, Vec::new(), &Vec::new(), false, &missing, "");
    assert_eq!(report_code(&report), 1);
    assert!(report.warnings.iter().any(|warning| warning.contains("missing-host")));
    let asked = vec!["laptop".to_string()];
    assert!(missing_hosts(&fleet, &asked).is_empty());
}

#[test]
fn invalid_marketplace_sort_is_a_usage_error() {
    assert!(parse(&words("search viewer --sort mystery")).is_err());
}

#[test]
fn options_are_absorbed() {
    let args = parse(&words(
        "search file viewer --sort stars --limit 5 --timeout 7 --config c.toml --only p -y --refresh --since 1h",
    ))
    .unwrap();
    assert_eq!(query(&args), "file viewer");
    assert_eq!(args.sort, SortMode::Stars);
    assert_eq!(search_limit(&args), 5);
    assert_eq!(args.timeout.as_secs(), 7);
    assert_eq!(args.config.as_deref(), Some("c.toml"));
    assert_eq!(args.only.as_deref(), Some("p"));
    assert!(args.yes && args.refresh && !args.json);
    assert_eq!(since(&args, 10_000), Some(6_400));
    assert_eq!(since(&args, 5), Some(0));
    let plain = parse(&words("check")).unwrap();
    assert_eq!(plain.timeout.as_secs(), 20);
    assert_eq!(search_limit(&plain), 20);
    assert_eq!(since(&plain, 5), None);
    let hosts = parse(&vec!["fleet".into(), "--hosts".into(), " a, ,b ".into()]).unwrap();
    assert_eq!(hosts.hosts, vec!["a", "b"]);
}

#[test]
fn usage_errors_are_named() {
    let error = |line: &str| parse(&words(line)).unwrap_err();
    assert_eq!(error(""), "");
    assert_eq!(error("check -h"), "");
    assert_eq!(error("check --help --bogus"), "");
    assert_eq!(error("check --timeout"), "--timeout needs a value");
    assert_eq!(error("check --timeout soon"), "--timeout: soon is not a number");
    assert_eq!(error("check --timeout 0"), "--timeout must be greater than 0");
    assert_eq!(error("check --limit x"), "--limit: x is not a number");
    assert_eq!(error("check --mystery"), "unknown option: --mystery");
    assert_eq!(error("check stray"), "unknown option: stray");
    assert_eq!(error("sync plan extra"), "unknown option: extra");
    assert!(error("history --since soon").starts_with("--since: "));
}

#[test]
fn operands_belong_to_commands_that_take_them() {
    let install = parse(&words("install tools.finder")).unwrap();
    assert_eq!(operand(&install, "a plugin id"), Ok("tools.finder"));
    let bare = parse(&words("install")).unwrap();
    assert_eq!(operand(&bare, "a plugin id").unwrap_err(), "install needs a plugin id");
    assert_eq!(verb("update"), Ok(Verb::Apply));
    assert_eq!(verb("open-store"), Ok(Verb::OpenStore));
}

#[test]
fn the_scope_is_never_nothing_by_options() {
    let config = Config::default();
    let of = |line: &str| scope(&parse(&words(line)).unwrap(), &config);
    assert_eq!(of("check"), Ok(Scope { core: true, plugins: true }));
    assert_eq!(of("check --core-only"), Ok(Scope { core: true, plugins: false }));
    assert_eq!(of("check --plugins-only"), Ok(Scope { core: false, plugins: true }));
    assert!(of("check --core-only --plugins-only").is_err());
    let narrow = Config { check_core: false, ..Config::default() };
    assert_eq!(
        scope(&parse(&words("check")).unwrap(), &narrow),
        Ok(Scope { core: false, plugins: true })
    );
}

#[test]
fn the_worst_target_decides_the_code() {
    let hold = || Decision::Hold("h".into());
    let error = || Decision::Error("e".into());
    assert_eq!(exit_code(&None, &vec![Decision::Current, hold()]), 0);
    assert_eq!(exit_code(&None, &vec![Decision::Update, Decision::Current]), 1);
    assert_eq!(exit_code(&None, &vec![Decision::Update, error(), hold()]), 2);
    assert_eq!(exit_code(&Some((hold(), true)), &Vec::new()), 1);
    assert_eq!(exit_code(&Some((hold(), false)), &Vec::new()), 0);
    assert_eq!(exit_code(&Some((error(), false)), &vec![Decision::Update]), 2);
    assert_eq!(apply_code(&None, &vec![Decision::Update], false), 0);
    assert_eq!(apply_code(&None, &vec![Decision::Update], true), 1);
    assert_eq!(apply_code(&Some((error(), false)), &Vec::new(), false), 2);
    assert_eq!(apply_code(&Some((hold(), true)), &Vec::new(), false), 1);
}

#[test]
fn nothing_changes_unless_the_policy_says_so() {
    let none = Scope { core: false, plugins: false };
    for v in [Verb::Check, Verb::Plan, Verb::Apply, Verb::Startup, Verb::Schedule] {
        assert_eq!(changes(v, Policy::Notify), none);
    }
    assert_eq!(changes(Verb::Plan, Policy::Auto), none);
    assert_eq!(changes(Verb::Apply, Policy::Auto), Scope { core: true, plugins: true });
    assert_eq!(changes(Verb::Startup, Policy::Auto), Scope { core: false, plugins: true });
}

#[test]
fn the_check_is_printed() {
    let state = inspected(CURRENT_STATUS, r#"{"version":"0.9.0","protocol":21}"#);
    assert_eq!(
        cmd_check(&state, false, true),
        vec![
            "herdr core",
            "  installed : 0.8.2 (protocol 20)",
            "  latest    : 0.9.0 (protocol 21)",
            "  server    : running",
            "  action    : UPDATE 0.8.2 -> 0.9.0",
            "  ⚠ protocol 20 -> 21: update every host together or mirrors and `herdr --remote` break between them",
        ]
    );
    let held = cmd_check(&state, false, false);
    assert_eq!(held[4], "  action    : HOLD — protocol 20 -> 21 is held unless it is explicitly allowed");
    let current = inspected(CURRENT_STATUS, r#"{"version":"0.8.2","protocol":20}"#);
    assert_eq!(cmd_check(&current, false, false)[4], "  action    : up to date");
    let broken = inspected("nope", r#"{"version":"0.8.2","protocol":20}"#);
    let lines = cmd_check(&broken, false, false);
    assert_eq!(lines[1], "  installed : (unknown)");
    assert!(lines[4].starts_with("  action    : ERROR — "));
}

#[test]
fn plugins_are_printed_with_their_decision() {
    let line = |relation, decision| plan_line(&plugin(relation), &decision);
    let name = "  sample                       ";
    assert_eq!(line(Relation::Same, Decision::Current), format!("{name}CURRENT"));
    assert_eq!(line(Relation::Behind, Decision::Update), format!("{name}UPDATE 1 -> 2"));
    assert_eq!(line(Relation::Ahead, Decision::Hold("h".into())), format!("{name}HOLD — h"));
    assert_eq!(line(Relation::Unknown, Decision::Error("e".into())), format!("{name}ERROR — e"));
}

#[test]
fn the_invoking_binary_is_driven() {
    assert_eq!(herdr_bin(&Some("/x/herdr".into())), "/x/herdr");
    assert_eq!(herdr_bin(&None), "herdr");
    assert!(!VERSION.is_empty());
}

#[test]
fn a_protocol_change_is_allowed_by_option_or_configuration() {
    let mut config = Config::default();
    let plain = parse(&words("plan")).unwrap();
    assert!(!allows_protocol_change(&plain, &config));
    let asked = parse(&words("plan --allow-protocol-change")).unwrap();
    assert!(allows_protocol_change(&asked, &config));
    config.allow_protocol_change = true;
    assert!(allows_protocol_change(&plain, &config));
}

#[test]
fn the_startup_hook_can_be_switched_off() {
    let mut config = Config::default();
    config.startup_check = true;
    assert!(!is_idle(Verb::Startup, &config));
    config.startup_check = false;
    assert!(is_idle(Verb::Startup, &config));
    assert!(!is_idle(Verb::Apply, &config));
}
