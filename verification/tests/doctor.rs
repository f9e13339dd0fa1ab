use herdr_updater::config::{Config, Loaded};
use herdr_updater::doctor::{
    budget_check, budget_response, config_checks, curl_budget_args, exit_code, fail, fleet_checks,
    gather_budget, gh_budget_args, github_budget, herdr_checks, ok, read_budget, render, report, run,
    state_checks, tool_checks, tools, warn, Budget, HerdrProbe, Level, Survey,
};
use herdr_updater::duration::Duration;
use herdr_updater::exec::{ExecError, Output};
use herdr_updater::herdr::{CoreRelation, CoreState};
use herdr_updater::history::{Event, EventKind};
use herdr_updater::json::Found;
use herdr_updater::schedule::{ScheduleState, Status};

const LIMITS: &str = r#"{"resources":{"core":{"limit":60,"remaining":9,"reset":600}}}"#;

fn core_state(latest: Option<&str>, relation: CoreRelation) -> CoreState {
    CoreState {
        installed: "0.8.2".into(),
        channel: Some("stable".into()),
        binary: None,
        protocol: 20,
        server_status: None,
        server_running: false,
        server_version: None,
        server_protocol: None,
        compatible: None,
        live_handoff: false,
        detached_server_daemon: false,
        restart_needed: false,
        latest: latest.map(str::to_string),
        latest_protocol: Some(20),
        relation,
        channel_mismatch: false,
        update_available: relation == CoreRelation::Behind,
        protocol_change: false,
        error: None,
    }
}

fn status() -> Status {
    Status {
        platform: "linux/systemd-user",
        installed: true,
        resource: "/timer".into(),
        state: ScheduleState::default(),
    }
}

fn survey() -> Survey {
    Survey {
        loaded: Ok(Loaded {
            value: Config::default(),
            path: "/c/config.toml".into(),
            existed: true,
            warnings: Vec::new(),
        }),
        herdr_bin: "herdr".into(),
        herdr: HerdrProbe::Found {
            path: "/bin/herdr".into(),
            state: core_state(Some("0.8.2"), CoreRelation::Same),
            plugins: Ok(3),
        },
        tools: vec![true; 5],
        budget: Some(r#"{"resources":{"core":{"limit":60,"remaining":59}}}"#.into()),
        directory: "/c".into(),
        writable: Ok(()),
        history: Ok(Vec::new()),
        status: Ok(status()),
        hosts: 0,
        hosts_source: None,
        hosts_fault: None,
        desired: "/c/desired.toml".into(),
        desired_found: false,
    }
}

#[test]
fn exit_code_follows_the_worst_level_present() {
    assert_eq!(exit_code(&report(vec![ok("a", "b", "c")])), 0);
    assert_eq!(exit_code(&report(vec![warn("a", "b", "c", "d")])), 1);
    assert_eq!(
        exit_code(&report(vec![warn("a", "b", "c", "d"), fail("a", "b", "c", "d")])),
        2
    );
}

#[test]
fn a_healthy_host_is_green() {
    let made = run(&survey(), 0);
    assert_eq!(exit_code(&made), 0, "{made:?}");
    assert_eq!(made.ok, made.checks.len());
    let lines = render(&made);
    assert_eq!(lines[0], "");
    assert_eq!(lines[1], "config");
    assert_eq!(lines[2], "  OK    file           /c/config.toml");
    assert_eq!(lines.last().unwrap(), &format!("{} ok, 0 warning(s), 0 failure(s)", made.ok));
}

#[test]
fn a_broken_config_is_a_failure_and_the_rest_still_runs() {
    let broken = Survey { loaded: Err("no such key".into()), ..survey() };
    let made = run(&broken, 0);
    assert_eq!(exit_code(&made), 2);
    for area in ["herdr", "tools", "github", "state", "schedule", "fleet"] {
        assert!(made.checks.iter().any(|check| check.area == area), "{area}");
    }
}

#[test]
fn every_problem_carries_a_remedy() {
    let sick = Survey {
        loaded: Err("x".into()),
        herdr: HerdrProbe::Missing,
        tools: vec![false; 5],
        budget: None,
        writable: Err("denied".into()),
        ..survey()
    };
    let made = run(&sick, 0);
    for check in &made.checks {
        assert_eq!(check.level == Level::Pass, check.remedy.is_none(), "{check:?}");
    }
    assert!(made.failures >= 4);
    let lines = render(&made);
    assert!(lines.iter().any(|line| line.starts_with("                       -> ")));
}

#[test]
fn config_keys_of_newer_builds_are_reported() {
    let loaded = Ok(Loaded {
        value: Config::default(),
        path: "c".into(),
        existed: false,
        warnings: vec!["future".into()],
    });
    let checks = config_checks(&loaded);
    assert_eq!(checks.len(), 3);
    assert_eq!(checks[0].detail, "c (absent; built-in defaults)");
    assert_eq!(checks[1].level, Level::Warn);
}

#[test]
fn the_state_of_herdr_is_judged() {
    let found = |state, plugins| HerdrProbe::Found { path: "/b".into(), state, plugins };
    let missing = herdr_checks("herdr", &HerdrProbe::Missing, false);
    assert_eq!(missing[0].detail, "\"herdr\" is not on PATH");
    let offline = herdr_checks("h", &found(core_state(None, CoreRelation::Unknown), Ok(0)), false);
    assert_eq!(offline[2].level, Level::Warn);
    assert_eq!(offline[3].level, Level::Fail);
    let ahead = herdr_checks("h", &found(core_state(Some("0.8.1"), CoreRelation::Ahead), Ok(0)), false);
    assert_eq!(ahead[3].level, Level::Warn);
    assert_eq!(ahead[2].detail, "latest 0.8.1, relation Ahead");
    assert_eq!(ahead[1].detail, "0.8.2 (protocol 20), channel stable");
    let behind =
        herdr_checks("h", &found(core_state(Some("0.9.0"), CoreRelation::Behind), Err("x".into())), false);
    assert_eq!(behind[3].detail, "eligible to update");
    assert_eq!(behind[4].level, Level::Fail);
    let mut broken = core_state(None, CoreRelation::Unknown);
    broken.error = Some("boom".into());
    let checks = herdr_checks("h", &found(broken, Ok(0)), false);
    assert_eq!(checks.len(), 2);
    assert_eq!(checks[1].detail, "boom");
}

#[test]
fn a_missing_program_is_as_bad_as_what_it_gates() {
    assert_eq!(tools().len(), 5);
    let checks = tool_checks(&vec![false, true, false]);
    assert_eq!(checks[0].level, Level::Fail);
    assert_eq!(checks[1].level, Level::Pass);
    assert_eq!(checks[2].level, Level::Warn);
    assert_eq!(checks[4].level, Level::Warn);
    assert_eq!(checks[0].remedy.as_deref(), Some("install git"));
}

#[test]
fn the_budget_is_read_from_the_answer() {
    let low = github_budget(&Some(LIMITS.into()), 0);
    assert_eq!(low.level, Level::Warn);
    assert_eq!(low.detail, "9/60 requests remaining, resets in 10m");
    assert_eq!(
        github_budget(&Some("nope".into()), 0).detail,
        "GitHub rate_limit response was not JSON"
    );
    assert_eq!(
        github_budget(&Some("{}".into()), 0).detail,
        "GitHub rate_limit response had no core budget"
    );
    assert_eq!(github_budget(&None, 0).detail, "GitHub API budget could not be read");
    assert!(matches!(
        read_budget(&Some(LIMITS.into())),
        Budget::Read { remaining: Some(9), limit: Some(60), reset: Some(600) }
    ));
    let member = |number| Ok(Found { text: None, number });
    assert!(matches!(
        gather_budget(&member(Some(3)), &member(Some(60)), &member(None)),
        Budget::Read { remaining: Some(3), limit: Some(60), reset: None }
    ));
    assert!(matches!(
        gather_budget(&Err("expected value".into()), &member(Some(60)), &member(None)),
        Budget::Garbled
    ));
    let plenty = Budget::Read { remaining: Some(10), limit: Some(60), reset: None };
    assert_eq!(budget_check(&plenty, 0).level, Level::Pass);
    assert_eq!(budget_check(&plenty, 0).detail, "10/60 requests remaining");
}

#[test]
fn an_answer_counts_only_from_a_program_that_succeeded() {
    let good = Some(Ok(Output { code: 0, stdout: "{}".into(), stderr: String::new() }));
    let bad = Some(Ok(Output { code: 1, stdout: "{}".into(), stderr: String::new() }));
    assert_eq!(budget_response(&good).as_deref(), Some("{}"));
    assert_eq!(budget_response(&bad), None);
    assert_eq!(budget_response(&Some(Err(ExecError::Timeout { secs: 1 }))), None);
    assert_eq!(budget_response(&None), None);
    assert_eq!(gh_budget_args(), vec!["api", "rate_limit"]);
    assert_eq!(curl_budget_args(Duration::from_secs(0))[2], "1");
}

#[test]
fn a_schedule_that_does_not_fire_is_noticed() {
    let mut late = status();
    late.state.next_check_unix_seconds = Some(1_000);
    let checks =
        |s, now| state_checks("/c", &Ok(()), &Ok(Vec::new()), &Ok(s), true, now);
    let due = checks(late, 4_601);
    assert_eq!(due[3].level, Level::Warn);
    assert!(due[3].detail.contains("does not appear to be firing"));
    let mut soon = status();
    soon.state.next_check_unix_seconds = Some(1_000);
    soon.state.consecutive_failures = 2;
    soon.state.last_exit_code = Some(2);
    let fine = checks(soon, 4_600);
    assert_eq!(fine[3].level, Level::Pass);
    assert_eq!(fine[4].detail, "2 consecutive failures, last exit code 2");
    let mut absent = status();
    absent.installed = false;
    let none = checks(absent, 0);
    assert_eq!(none[2].level, Level::Warn);
    assert!(none[3].detail.contains("not scheduled yet"));
}

#[test]
fn history_and_directory_are_checked() {
    let last = Event {
        unix_seconds: 0,
        kind: EventKind::PluginUpdated,
        target: "a".into(),
        previous: "1".into(),
        current: "2".into(),
        tracking_ref: None,
    };
    let checks = state_checks("/c", &Ok(()), &Ok(vec![last]), &Err("s".into()), false, 600);
    assert_eq!(checks[1].detail, "1 events, last 1970-01-01T00:00:00Z (10m ago)");
    assert_eq!(checks[2].level, Level::Warn);
    let corrupt = state_checks("/c", &Ok(()), &Err("line 3".into()), &Ok(status()), false, 0);
    assert_eq!(corrupt[1].level, Level::Fail);
    let locked =
        state_checks("/c", &Err("denied".into()), &Ok(Vec::new()), &Ok(status()), false, 0);
    assert_eq!(locked.len(), 1);
    assert_eq!(locked[0].detail, "/c: denied");
}

#[test]
fn the_fleet_is_described() {
    let some = fleet_checks(2, &Some("/hosts.toml".into()), &None, "/d", true);
    assert_eq!(some[0].detail, "2 host(s) from /hosts.toml");
    assert_eq!(some[1].detail, "/d");
    let broken = fleet_checks(
        0,
        &Some("/hosts.toml".into()),
        &Some("cannot parse /hosts.toml".into()),
        "/d",
        true,
    );
    assert_eq!(broken[0].level, Level::Fail);
    assert_eq!(broken[0].detail, "cannot parse /hosts.toml");
    assert!(broken[0].remedy.is_some());
    let none = fleet_checks(0, &None, &None, "/d", false);
    assert_eq!(none[1].detail, "/d (absent; derived from this host)");
}
