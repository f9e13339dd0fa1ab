use herdr_updater::catalog::Platform;
use herdr_updater::config::Config;
use herdr_updater::duration::Duration;
use herdr_updater::exec::{ExecError, Output};
use herdr_updater::schedule::{
    begin, boot_id, bounded, check_due, check_due_at, cmd_schedule, describe, describe_lock,
    deterministic_jitter, elapsed_since, home_dir, in_window, inspect_owner, install,
    install_error, launch_domain, launchd_service_not_loaded, launchd_service_target,
    launchd_unload, load_steps, local_minutes, local_time_command, missing_tool,
    prepare_initial_state, process_alive, quiet_now, read_state, removal, remove,
    resource_location, restore, retry_delay, run_course, run_succeeded, schedule_mode,
    scheduler_path, scheduler_tick, scheduler_tool, service_location, systemd_quote, unload_args,
    windows_frequency, write_owner, write_refusal, xml_escape, InstallRequest, LockEvent,
    LockOwner, LockStage, LockVerdict, Presence, ProcessProbe, Restoration, RunCourse, RunLease,
    ScheduleMode, ScheduleState, StateFile, Status, Step, UnloadStage,
};

fn ran(stdout: &str) -> Result<Output, ExecError> {
    Ok(Output { code: 0, stdout: stdout.into(), stderr: String::new() })
}

fn failed(code: i32, stderr: &str) -> Result<Output, ExecError> {
    Ok(Output { code, stdout: String::new(), stderr: stderr.into() })
}

fn owner(pid: u32, boot: Option<&str>) -> Option<LockOwner> {
    Some(LockOwner { pid, boot: boot.map(str::to_string), acquired_unix_seconds: 1 })
}

fn found(verdict: LockVerdict, age: Option<u64>) -> LockEvent {
    LockEvent::Inspected { is_dir: true, verdict, age: age.map(Duration::from_secs) }
}

fn request() -> InstallRequest {
    InstallRequest {
        executable: "/opt/my \"bin\"/herdr-updater".into(),
        config_path: "/home/me/config.toml".into(),
        path: "/opt:/usr/bin".into(),
        resource: "/home/me/timer".into(),
        service: "/home/me/service".into(),
    }
}

#[test]
fn a_lock_left_by_a_dead_process_is_reclaimed_without_waiting() {
    let boot = Some("boot".to_string());
    let verdict = inspect_owner(&owner(0, Some("boot")), &boot, &ProcessProbe::Entry(true));
    assert_eq!(verdict, LockVerdict::OwnerGone);
    let exists = LockEvent::Exists("File exists".into());
    assert_eq!(begin(LockStage::Create, &exists, "lock"), Ok(LockStage::Inspect));
    assert_eq!(
        begin(LockStage::Inspect, &found(verdict, Some(0)), "lock"),
        Ok(LockStage::Clear),
        "a lock owned by a dead process must be reclaimed immediately, not after 2 hours"
    );
    assert_eq!(begin(LockStage::Clear, &LockEvent::Cleared, "lock"), Ok(LockStage::Recreate));
    assert_eq!(begin(LockStage::Recreate, &LockEvent::Created, "lock"), Ok(LockStage::Acquired));
}

#[test]
fn a_lock_held_by_a_live_process_is_respected() {
    let boot = Some("boot".to_string());
    let verdict = inspect_owner(&owner(4242, Some("boot")), &boot, &ProcessProbe::Entry(true));
    assert_eq!(verdict, LockVerdict::Held);
    assert_eq!(
        begin(LockStage::Inspect, &found(verdict, Some(1_000_000)), "lock"),
        Ok(LockStage::Refused),
        "a genuinely concurrent run must still be refused"
    );
}

#[test]
fn a_lock_from_a_previous_boot_is_gone_whatever_its_pid_says() {
    let recorded = owner(4242, Some("00000000-0000-0000-0000-000000000000"));
    let current = Some("11111111-0000-0000-0000-000000000000".to_string());
    assert_eq!(
        inspect_owner(&recorded, &current, &ProcessProbe::Entry(true)),
        LockVerdict::OwnerGone
    );
}

#[test]
fn a_lock_with_no_owner_file_falls_back_to_age() {
    assert_eq!(inspect_owner(&None, &None, &ProcessProbe::Entry(true)), LockVerdict::Unknown);
    let unknown = |age| begin(LockStage::Inspect, &found(LockVerdict::Unknown, age), "lock");
    assert_eq!(unknown(Some(7_199)), Ok(LockStage::Refused));
    assert_eq!(unknown(Some(7_200)), Ok(LockStage::Clear));
    assert_eq!(unknown(None), Ok(LockStage::Refused));
}

#[test]
fn acquiring_records_this_process_as_the_owner() {
    assert_eq!(begin(LockStage::Create, &LockEvent::Created, "lock"), Ok(LockStage::Acquired));
    let boot = boot_id(&Some("6f8a-boot\n".into()));
    let recorded = write_owner(4242, boot.clone(), 77);
    assert_eq!(recorded.pid, 4242);
    assert_eq!(recorded.boot, boot);
    assert_eq!(recorded.boot.as_deref(), Some("6f8a-boot"));
    assert_eq!(recorded.acquired_unix_seconds, 77);
    let report = describe_lock(
        true,
        &Some(recorded),
        &boot,
        &ProcessProbe::Entry(true),
        Some(Duration::from_secs(5)),
    )
    .unwrap();
    assert_eq!(report.pid, Some(4242));
    assert_eq!(report.verdict, LockVerdict::Held);
    assert_eq!(report.held_for, Some(Duration::from_secs(5)));
    assert!(describe_lock(false, &None, &None, &ProcessProbe::Unavailable, None).is_none());
}

#[test]
fn lock_failures_are_named() {
    let failure = LockEvent::Failed("denied".into());
    assert_eq!(
        begin(LockStage::Create, &failure, "lock").unwrap_err(),
        "cannot acquire lock: denied"
    );
    assert_eq!(
        begin(LockStage::Inspect, &failure, "lock").unwrap_err(),
        "cannot inspect lock: denied"
    );
    assert_eq!(
        begin(LockStage::Clear, &failure, "lock").unwrap_err(),
        "cannot clear stale lock: denied"
    );
    assert!(begin(LockStage::Recreate, &LockEvent::Exists("there".into()), "lock").is_err());
    let file = LockEvent::Inspected { is_dir: false, verdict: LockVerdict::Unknown, age: None };
    assert_eq!(
        begin(LockStage::Inspect, &file, "lock").unwrap_err(),
        "lock is not the updater's lock directory"
    );
}

#[test]
fn a_process_is_asked_for_as_the_platform_can() {
    assert_eq!(process_alive(1, &ProcessProbe::Signal(ran(""))), Some(true));
    assert_eq!(process_alive(1, &ProcessProbe::Signal(failed(1, ""))), Some(false));
    assert_eq!(
        process_alive(1, &ProcessProbe::Signal(Err(ExecError::Timeout { secs: 5 }))),
        None
    );
    assert_eq!(process_alive(0, &ProcessProbe::Entry(true)), Some(false));
    assert_eq!(process_alive(7, &ProcessProbe::Unavailable), None);
    assert_eq!(boot_id(&Some(" id \n".into())).as_deref(), Some("id"));
    assert_eq!(boot_id(&Some("\n".into())), None);
}

#[test]
fn quiet_hours_support_windows_that_cross_midnight() {
    assert!(in_window(23 * 60, 22 * 60, 6 * 60));
    assert!(in_window(5 * 60, 22 * 60, 6 * 60));
    assert!(!in_window(12 * 60, 22 * 60, 6 * 60));
}

#[test]
fn a_window_and_its_reverse_split_the_day() {
    for minute in 0..1_440u16 {
        assert_ne!(in_window(minute, 1_350, 420), in_window(minute, 420, 1_350));
    }
}

#[test]
fn retry_backoff_is_exponential_and_capped() {
    assert_eq!(retry_delay(1, Duration::from_secs(24 * 60 * 60)).as_secs(), 300);
    assert_eq!(retry_delay(3, Duration::from_secs(24 * 60 * 60)).as_secs(), 1200);
    assert_eq!(retry_delay(30, Duration::from_secs(60 * 60)).as_secs(), 3600);
}

#[test]
fn retries_never_shrink() {
    let normal = Duration::from_secs(24 * 60 * 60);
    for failures in 0..20 {
        let now = retry_delay(failures, normal).as_secs();
        let next = retry_delay(failures + 1, normal).as_secs();
        assert!(300 <= now && now <= next);
    }
    assert_eq!(retry_delay(9, normal).as_secs(), 76_800);
    assert_eq!(retry_delay(9, Duration::from_secs(1)).as_secs(), 300);
}

#[test]
fn jitter_never_exceeds_the_configured_maximum() {
    for seed in 0..1_000 {
        assert!(deterministic_jitter(seed, Duration::from_secs(300)) <= 300);
    }
}

#[test]
fn jitter_is_the_scattered_seed() {
    for seed in [0u64, 1, 1_756_710_000, u64::MAX] {
        let expected = seed.rotate_left(17).wrapping_mul(0x9e3779b97f4a7c15) % 301;
        assert_eq!(deterministic_jitter(seed, Duration::from_secs(300)), expected);
        assert_eq!(deterministic_jitter(seed, Duration::from_secs(0)), 0);
    }
}

#[test]
fn scheduler_tick_is_short_enough_to_observe_jittered_deadlines() {
    let config = Config::default();
    assert_eq!(scheduler_tick(&config), Duration::from_secs(5 * 60));

    let config = Config {
        initial_delay: "0s".into(),
        jitter: "90s".into(),
        ..Config::default()
    };
    assert_eq!(scheduler_tick(&config), Duration::from_secs(90));

    let config = Config {
        initial_delay: "1s".into(),
        jitter: "1s".into(),
        ..Config::default()
    };
    assert_eq!(scheduler_tick(&config), Duration::from_secs(60));
}

#[test]
fn scheduler_path_leads_with_our_own_directory() {
    let dir = "/home/me/.local/bin".to_string();
    let path = scheduler_path(Platform::Linux, &Some(dir.clone()), "/usr/bin:/bin");
    assert!(path.starts_with(&dir), "{path} should start with {dir}");
}

#[test]
fn scheduler_path_keeps_inherited_entries_without_duplicating_them() {
    let inherited = "/usr/bin::/bin:/usr/bin:/opt/x:/home/me";
    let path = scheduler_path(Platform::Linux, &Some("/opt/x".into()), inherited);
    for entry in inherited.split(':') {
        if entry.is_empty() {
            continue;
        }
        assert!(path.split(':').any(|p| p == entry), "{entry} missing from {path}");
    }
    let mut seen: Vec<&str> = path.split(':').collect();
    let before = seen.len();
    seen.sort_unstable();
    seen.dedup();
    assert_eq!(before, seen.len(), "duplicate entries in {path}");
    assert_eq!(path, "/opt/x:/usr/bin:/bin:/home/me");
}

#[test]
fn scheduler_path_is_never_empty() {
    assert!(!scheduler_path(Platform::Linux, &Some("/opt".into()), "").is_empty());
    assert_eq!(
        scheduler_path(Platform::Linux, &None, "  "),
        "/usr/local/bin:/usr/bin:/bin:/usr/sbin:/sbin"
    );
    assert_eq!(
        scheduler_path(Platform::Windows, &None, ""),
        "C:\\Windows\\system32;C:\\Windows"
    );
}

#[test]
fn launchd_bootout_uses_a_single_domain_qualified_service_target() {
    assert_eq!(
        launchd_service_target("gui/501", "io.github.diegopzz.herdr-updater"),
        "gui/501/io.github.diegopzz.herdr-updater"
    );
}

#[test]
fn launchd_only_ignores_a_confirmed_missing_service() {
    let missing = Output {
        code: 113,
        stdout: String::new(),
        stderr: "Bad request. Could not find service in domain for user gui: 501".into(),
    };
    assert!(launchd_service_not_loaded(&missing));

    let denied = Output {
        code: 1,
        stdout: String::new(),
        stderr: "Operation not permitted".into(),
    };
    assert!(!launchd_service_not_loaded(&denied));
}

#[test]
fn unloading_is_confirmed() {
    let gone = failed(113, "Could not find service");
    let at = |stage, run: &Result<Output, ExecError>| launchd_unload(stage, "gui/501/x", run);
    assert_eq!(at(UnloadStage::Inspect, &gone), Ok(UnloadStage::Done));
    assert_eq!(at(UnloadStage::Inspect, &ran("")), Ok(UnloadStage::Bootout));
    assert!(at(UnloadStage::Inspect, &failed(1, "denied")).unwrap_err().contains("denied"));
    assert_eq!(at(UnloadStage::Bootout, &ran("")), Ok(UnloadStage::Verify));
    assert!(at(UnloadStage::Bootout, &failed(5, "busy")).is_err());
    assert_eq!(at(UnloadStage::Verify, &gone), Ok(UnloadStage::Done));
    assert_eq!(
        at(UnloadStage::Verify, &ran("")).unwrap_err(),
        "launchd service gui/501/x is still loaded"
    );
    assert_eq!(unload_args(UnloadStage::Bootout, "t"), vec!["bootout", "t"]);
    assert_eq!(launch_domain(&ran("501\n")).unwrap(), "gui/501");
    assert!(launch_domain(&ran("root\n")).is_err());
    assert!(launch_domain(&Err(ExecError::Timeout { secs: 1 })).is_err());
}

#[test]
fn installing_a_schedule_seeds_and_can_restore_initial_state() {
    let config = Config { initial_delay: "5m".into(), jitter: "0s".into(), ..Config::default() };
    let (state, changed) =
        prepare_initial_state("state", &StateFile::Missing, &config, 1_000).unwrap();
    assert!(changed);
    assert_eq!(state.next_check_unix_seconds, Some(1_300));
    assert_eq!(restore(changed, false), Restoration::Remove);
    assert_eq!(restore(changed, true), Restoration::Rewrite);
    let (kept, again) =
        prepare_initial_state("state", &StateFile::Parsed(state), &config, 9_000).unwrap();
    assert!(!again);
    assert_eq!(kept.next_check_unix_seconds, Some(1_300));
    assert_eq!(restore(again, true), Restoration::Nothing);
    assert_eq!(
        install_error("a".into(), &Err("b".into())),
        "a; additionally could not restore schedule state: b"
    );
    assert_eq!(install_error("a".into(), &Ok(())), "a");
}

#[test]
fn a_run_is_recorded_and_waited_for() {
    let config = Config { jitter: "0s".into(), check_interval: "1h".into(), ..Config::default() };
    let mut lease = RunLease { state: ScheduleState::default() };
    assert!(check_due_at(&lease.state, &config, 100));
    lease.finish_at(&config, 2, false, false, 10_000);
    assert_eq!(lease.state.consecutive_failures, 1);
    assert_eq!(lease.state.next_check_unix_seconds, Some(10_300));
    assert_eq!(lease.state.last_success_unix_seconds, None);
    lease.finish_at(&config, 0, true, true, 20_000);
    assert_eq!(lease.state.consecutive_failures, 0);
    assert_eq!(lease.state.next_check_unix_seconds, Some(23_600));
    assert_eq!(lease.state.last_fleet_sync_unix_seconds, Some(20_000));
    assert!(!check_due_at(&lease.state, &config, 23_599));
    assert!(check_due_at(&lease.state, &config, 23_600));
    lease.defer_at(&config, 30_000, 1);
    assert_eq!(lease.state.next_check_unix_seconds, Some(30_300));
    assert_eq!(lease.state.last_attempt_unix_seconds, Some(20_000));
    lease.finish(&config, 0, true, false);
    lease.defer_for_quiet_hours(&config);
    assert_eq!(check_due("state", &StateFile::Parsed(lease.state), &config), Ok(false));
}

#[test]
fn fleet_sync_is_opt_in_and_periodic() {
    let off = Config::default();
    let on = Config {
        scheduled_fleet_sync: true,
        fleet_sync_interval: "1h".into(),
        ..Config::default()
    };
    let lease = RunLease {
        state: ScheduleState {
            last_fleet_sync_unix_seconds: Some(1_000),
            ..ScheduleState::default()
        },
    };
    assert!(!lease.fleet_sync_due(&off));
    assert!(lease.fleet_sync_due(&on));
    assert!(!lease.fleet_sync_due_at(&on, 4_599));
    assert!(lease.fleet_sync_due_at(&on, 4_600));
    assert_eq!(elapsed_since(None, 5), u64::MAX);
    assert_eq!(elapsed_since(Some(9), 5), 0);
}

#[test]
fn state_files_are_read_or_refused() {
    assert_eq!(read_state("s", &StateFile::Missing), Ok(ScheduleState::default()));
    assert_eq!(
        read_state("s", &StateFile::Uninspectable("io".into())).unwrap_err(),
        "cannot inspect s: io"
    );
    assert_eq!(
        read_state("s", &StateFile::Unbounded).unwrap_err(),
        "s is not a bounded regular file"
    );
    assert_eq!(
        read_state("s", &StateFile::Unreadable("io".into())).unwrap_err(),
        "cannot read s: io"
    );
    assert_eq!(
        read_state("s", &StateFile::Unparsable("bad".into())).unwrap_err(),
        "cannot parse s: bad"
    );
    assert!(bounded(true, 65_536));
    assert!(!bounded(true, 65_537));
    assert!(!bounded(false, 1));
}

#[test]
fn quiet_hours_follow_the_local_clock() {
    let quiet = Config { quiet_hours: Some("22:30-07:00".into()), ..Config::default() };
    assert_eq!(quiet_now(&quiet, &ran("23:15\n")), Ok(true));
    assert_eq!(quiet_now(&quiet, &ran("12:00\n")), Ok(false));
    assert_eq!(quiet_now(&Config::default(), &ran("nonsense")), Ok(false));
    assert_eq!(local_minutes(&ran("07:05\n")), Ok(425));
    assert_eq!(
        local_minutes(&ran("noon")).unwrap_err(),
        "local time command returned an invalid value"
    );
    assert_eq!(
        local_minutes(&ran("x:1")).unwrap_err(),
        "local time command returned an invalid hour"
    );
    assert_eq!(
        local_minutes(&ran("1:x")).unwrap_err(),
        "local time command returned an invalid minute"
    );
    assert_eq!(
        local_minutes(&ran("24:00")).unwrap_err(),
        "local time command returned an out-of-range value"
    );
    assert!(quiet_now(&quiet, &Err(ExecError::Timeout { secs: 1 }))
        .unwrap_err()
        .starts_with("cannot read local time"));
    let odd = Config { quiet_hours: Some("late".into()), ..Config::default() };
    assert!(quiet_now(&odd, &ran("12:00")).is_err());
    assert_eq!(local_time_command(Platform::Linux).0, "date");
    assert_eq!(local_time_command(Platform::Windows).0, "powershell");
}

#[test]
fn units_quote_what_they_hold() {
    assert_eq!(systemd_quote("a\\b\"c"), "\"a\\\\b\\\"c\"");
    assert_eq!(xml_escape("<a & 'b'>\"&amp;"), "&lt;a &amp; &apos;b&apos;&gt;&quot;&amp;amp;");
    assert_eq!(windows_frequency(Duration::from_secs(90)), ("MINUTE", "2".to_string()));
    assert_eq!(windows_frequency(Duration::from_secs(0)), ("MINUTE", "1".to_string()));
    assert_eq!(windows_frequency(Duration::from_secs(86_399)), ("MINUTE", "1439".to_string()));
    assert_eq!(windows_frequency(Duration::from_secs(86_401)), ("DAILY", "2".to_string()));
    assert_eq!(windows_frequency(Duration::from_secs(u64::MAX)), ("DAILY", "365".to_string()));
}

#[test]
fn a_linux_schedule_is_a_service_and_a_timer() {
    let config = Config { initial_delay: "0s".into(), ..Config::default() };
    let steps = install(Platform::Linux, &request(), &config);
    assert_eq!(steps.len(), 4);
    match &steps[0] {
        Step::Write { path, content } => {
            assert_eq!(path, "/home/me/service");
            assert!(content.contains(
                "ExecStart=\"/opt/my \\\"bin\\\"/herdr-updater\" schedule run --config \"/home/me/config.toml\"\n"
            ));
            assert!(content.contains("Environment=PATH=/opt:/usr/bin\n"));
        }
        other => panic!("{other:?}"),
    }
    match &steps[1] {
        Step::Write { content, .. } => {
            assert!(content.contains("OnBootSec=1\nOnUnitActiveSec=300\n"))
        }
        other => panic!("{other:?}"),
    }
    match &steps[3] {
        Step::Run { program, args, label } => {
            assert_eq!(program, "systemctl");
            assert_eq!(args, &vec!["--user", "enable", "--now", "herdr-updater.timer"]);
            assert_eq!(label, "systemd timer enable");
        }
        other => panic!("{other:?}"),
    }
}

#[test]
fn the_other_platforms_have_their_units() {
    let config = Config { initial_delay: "0s".into(), ..Config::default() };
    let agent = install(Platform::Macos, &request(), &Config::default());
    assert!(matches!(&agent[0], Step::Write { content, .. }
        if content.contains("<integer>300</integer>") && content.contains("&quot;bin&quot;")));
    let loading = load_steps("gui/501", "/p");
    assert!(matches!(&loading[0], Step::Unload { target }
        if target == "gui/501/io.github.diegopzz.herdr-updater"));
    let windows = install(Platform::Windows, &request(), &config);
    assert_eq!(windows.len(), 3);
    assert_eq!(install(Platform::Windows, &request(), &Config::default()).len(), 2);
    assert!(matches!(&windows[0], Step::Write { content, .. }
        if content.contains("if ($code -eq 1) { exit 0 }")));
}

#[test]
fn removing_always_removes_the_files() {
    for platform in [Platform::Linux, Platform::Macos, Platform::Windows] {
        for have in [false, true] {
            let steps = remove(platform, have, "target", "resource", "service");
            assert!(steps
                .iter()
                .any(|step| matches!(step, Step::Remove { path } if path == "resource")));
        }
    }
    assert_eq!(remove(Platform::Linux, true, "", "r", "s").len(), 4);
    assert_eq!(remove(Platform::Linux, false, "", "r", "s").len(), 2);
}

#[test]
fn only_regular_files_are_replaced_or_removed() {
    assert_eq!(
        write_refusal("p", &Presence::Other).unwrap(),
        "refusing to replace non-regular p"
    );
    assert_eq!(write_refusal("p", &Presence::Regular), None);
    assert_eq!(removal("p", &Presence::Missing), Ok(false));
    assert_eq!(removal("p", &Presence::Regular), Ok(true));
    assert_eq!(
        removal("p", &Presence::Other).unwrap_err(),
        "refusing to remove non-regular p"
    );
    assert!(removal("p", &Presence::Uninspectable("io".into())).is_err());
}

#[test]
fn resources_lie_where_the_platform_wants_them() {
    let linux = resource_location(Platform::Linux, "/home/me", "/cfg");
    assert_eq!(linux.base, "/home/me");
    assert_eq!(linux.components, vec![".config/systemd/user", "herdr-updater.timer"]);
    assert_eq!(resource_location(Platform::Windows, "/home/me", "/cfg").base, "/cfg");
    assert_eq!(service_location("/h").components[1], "herdr-updater.service");
    assert_eq!(scheduler_tool(Platform::Macos), "launchctl");
    assert!(missing_tool(Platform::Windows).contains("schtasks"));
    assert_eq!(home_dir(&None, &Some("/p".into())), Ok("/p".to_string()));
    assert_eq!(home_dir(&Some("/h".into()), &Some("/p".into())), Ok("/h".to_string()));
    assert!(home_dir(&None, &None).is_err());
}

#[test]
fn the_status_is_described_and_printed() {
    let state = ScheduleState {
        next_check_unix_seconds: Some(600),
        consecutive_failures: 2,
        ..ScheduleState::default()
    };
    let status =
        describe(Platform::Linux, "/timer", &Presence::Missing, &None, Ok(state)).unwrap();
    assert!(!status.installed);
    let (code, lines) = cmd_schedule("status", &Ok(status), 0);
    assert_eq!(code, 0);
    assert_eq!(
        lines,
        vec![
            "schedule: not installed on linux/systemd-user",
            "resource: /timer",
            "next check: 1970-01-01T00:10:00Z (in 10m)",
            "consecutive failures: 2",
        ]
    );
    let query = Some(ran(""));
    let windows = describe(Platform::Windows, "/s", &Presence::Regular, &query, Ok(state)).unwrap();
    assert!(windows.installed);
    let unasked = describe(Platform::Windows, "/s", &Presence::Regular, &None, Ok(state)).unwrap();
    assert!(!unasked.installed);
    let broken: Result<Status, String> =
        describe(Platform::Linux, "/t", &Presence::Regular, &None, Err("bad".into()));
    assert_eq!(cmd_schedule("status", &broken, 0).0, 2);
    assert_eq!(cmd_schedule("install", &broken, 0).0, 1);
    assert_eq!(schedule_mode("remove"), Ok(ScheduleMode::Remove));
    assert!(schedule_mode("dance").is_err());
}

#[test]
fn a_run_waits_defers_or_goes() {
    assert_eq!(run_course(false, true), RunCourse::Wait);
    assert_eq!(run_course(true, true), RunCourse::Defer);
    assert_eq!(run_course(true, false), RunCourse::Run);
    assert!(run_succeeded(1));
    assert!(!run_succeeded(2));
}
