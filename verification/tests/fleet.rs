use herdr_updater::exec::{ExecError, Output};
use herdr_updater::fleet::{
    batches, compare_hosts, exit_code, hosts_fault, load_hosts, missing_hosts, probe_local,
    probe_remote, render, select_hosts, sort_hosts, ssh_args, valid_alias, FleetPlugin, Host,
    HostEntry, HostState, HostsFile, HostsSource, RemoteProbe,
};
use herdr_updater::herdr::{ClientStatus, StatusJson};
use herdr_updater::plugins::{InstalledPlugin, PluginSource};
use herdr_updater::textmap::TextMap;

fn hosts_file(source: &str) -> HostsFile {
    let table: toml::Table = source.parse().unwrap();
    let mut hosts = TextMap::new();
    if let Some(entries) = table.get("hosts").and_then(toml::Value::as_table) {
        for (name, entry) in entries {
            let target = entry.get("target").and_then(toml::Value::as_str).map(str::to_string);
            hosts.insert(name.clone(), HostEntry { target });
        }
    }
    HostsFile { hosts }
}

fn host(name: &str, protocol: u32, version: &str) -> HostState {
    HostState {
        host: name.into(),
        target: name.into(),
        local: false,
        version: Some(version.into()),
        protocol: Some(protocol),
        server_running: true,
        plugins: TextMap::new(),
        plugin_error: None,
        error: None,
    }
}

fn plugin(revision: &str) -> FleetPlugin {
    FleetPlugin {
        version: Some("1.0.0".into()),
        source: "github".into(),
        revision: Some(revision.into()),
        owner: Some("o".into()),
        repo: Some("r".into()),
        subdir: None,
        requested_ref: None,
        enabled: true,
    }
}

fn ran(stdout: &str) -> Result<Output, ExecError> {
    Ok(Output { code: 0, stdout: stdout.into(), stderr: String::new() })
}

fn status() -> StatusJson {
    StatusJson {
        client: ClientStatus {
            version: "0.8.2".into(),
            channel: None,
            protocol: 20,
            binary: None,
        },
        server: None,
    }
}

#[test]
fn rejects_aliases_that_could_become_ssh_options_or_arguments() {
    assert!(valid_alias("ts-ubuntu"));
    assert!(valid_alias("portatil-wsl"));
    assert!(valid_alias("diego@macbook"));
    assert!(!valid_alias("-oProxyCommand=touch /tmp/pwned"));
    assert!(!valid_alias("host; rm -rf /"));
    assert!(!valid_alias("host with space"));
    assert!(!valid_alias(""));
}

#[test]
fn hosts_file_defaults_target_to_the_table_key() {
    let f = hosts_file("[hosts.macbook]\n");
    assert_eq!(f.hosts.get("macbook").unwrap().target, None, "absent target means: use the key");
    let (hosts, used) = load_hosts(&vec![HostsSource::Missing, HostsSource::Parsed(f)]);
    assert_eq!(used, Some(1));
    assert_eq!(hosts[0].target, "macbook");
}

#[test]
fn reads_the_herdr_mirror_hosts_shape_unchanged() {
    let f = hosts_file(
        r#"
poll_seconds = 20
default_host = "macbook"
close_remote_on_local_close = "panes"
[hosts.macbook]
target = "macbook"
always_control = false
[hosts.ts-ubuntu]
target = "ts-ubuntu"
always_control = true
"#,
    );
    assert_eq!(f.hosts.len(), 2);
    assert_eq!(f.hosts.get("ts-ubuntu").unwrap().target.as_deref(), Some("ts-ubuntu"));
}

#[test]
fn the_first_hosts_file_wins_outright() {
    let own = hosts_file("[hosts.a]\n");
    let mirror = hosts_file("[hosts.b]\n");
    let (hosts, used) = load_hosts(&vec![HostsSource::Parsed(own), HostsSource::Parsed(mirror)]);
    assert_eq!(used, Some(0));
    assert_eq!(hosts.len(), 1);
    assert_eq!(hosts[0].name, "a");
    let (none, unused) = load_hosts(&vec![HostsSource::Missing, HostsSource::Missing]);
    assert!(none.is_empty());
    assert_eq!(unused, None);
}

#[test]
fn a_broken_first_file_does_not_give_way_to_the_second() {
    let mirror = hosts_file("[hosts.b]\n");
    let found = vec![
        HostsSource::Unusable("cannot parse hosts.toml".into()),
        HostsSource::Parsed(mirror),
    ];
    let (hosts, used) = load_hosts(&found);
    assert!(hosts.is_empty());
    assert_eq!(used, Some(0));
    assert_eq!(hosts_fault(&found).as_deref(), Some("cannot parse hosts.toml"));
    let own = hosts_file("[hosts.a]\n");
    let shadowed = vec![HostsSource::Parsed(own), HostsSource::Unusable("unused".into())];
    assert_eq!(load_hosts(&shadowed).1, Some(0));
    assert_eq!(hosts_fault(&shadowed), None);
    assert_eq!(hosts_fault(&vec![HostsSource::Missing]), None);
}

#[test]
fn hosts_are_selected_by_name_or_target() {
    let all = || {
        vec![
            Host { name: "a".into(), target: "x".into() },
            Host { name: "b".into(), target: "y".into() },
        ]
    };
    let only = vec!["a".to_string(), "y".to_string(), "z".to_string()];
    assert_eq!(select_hosts(all(), &only).len(), 2);
    assert_eq!(missing_hosts(&all(), &only), vec!["z"]);
}

#[test]
fn a_fan_out_is_bounded() {
    let split = batches(10, 4);
    assert_eq!(split.iter().map(|b| b.to - b.from).collect::<Vec<_>>(), vec![4, 4, 2]);
    assert!(batches(0, 4).is_empty());
}

#[test]
fn an_alias_becomes_one_argument() {
    let args = ssh_args("laptop", "true", 20).unwrap();
    assert!(args.contains(&"laptop".to_string()));
    assert!(args.contains(&"BatchMode=yes".to_string()));
    assert!(ssh_args("-oProxyCommand=x", "true", 20).is_none());
}

#[test]
fn agreement_is_only_claimed_of_hosts_that_answered() {
    let same = vec![host("a", 20, "0.8.2"), host("b", 20, "0.8.2")];
    let report = compare_hosts(&same);
    assert!(!report.protocol_split && !report.version_split);
    assert_eq!(exit_code(&report), 0);
    let split = vec![host("a", 20, "0.8.2"), host("b", 21, "0.9.0")];
    let report = compare_hosts(&split);
    assert!(report.protocol_split && report.version_split);
    assert_eq!(exit_code(&report), 1);
    let mut silent = host("c", 22, "9.9.9");
    silent.error = Some("unreachable".into());
    let report = compare_hosts(&vec![host("a", 20, "0.8.2"), silent]);
    assert!(!report.protocol_split);
    assert_eq!(report.unreachable, 1);
    assert_eq!(exit_code(&report), 2);
    let lines = render(Some("hosts.toml"), &split, &compare_hosts(&split));
    assert!(lines.iter().any(|line| line.contains("hosts.toml")));
}

#[test]
fn plugin_drift_is_reported() {
    let mut a = host("a", 20, "0.8.2");
    a.plugins.insert("p".to_string(), plugin("1"));
    let mut b = host("b", 20, "0.8.2");
    b.plugins.insert("p".to_string(), plugin("2"));
    let report = compare_hosts(&vec![a, b]);
    assert_eq!(report.drifted, vec!["p"]);
    assert_eq!(exit_code(&report), 1);
}

#[test]
fn a_probe_fills_the_state_or_says_why_not() {
    let listed = InstalledPlugin {
        plugin_id: "p".into(),
        version: None,
        min_herdr_version: None,
        plugin_root: None,
        source: Some(PluginSource {
            kind: "github".into(),
            owner: None,
            repo: None,
            subdir: None,
            requested_ref: None,
            resolved_commit: Some("c".into()),
        }),
        enabled: true,
    };
    let probe = RemoteProbe {
        status_run: ran("{}"),
        status: Ok(status()),
        list_run: ran("{}"),
        list: Ok(vec![listed]),
    };
    let state = probe_remote("a", "a", &Some(probe));
    assert_eq!(state.protocol, Some(20));
    assert!(state.plugins.contains_key("p"));
    assert!(state.error.is_none() && state.plugin_error.is_none());
    assert!(probe_remote("a", "-x", &None).error.is_some());
    let dead = RemoteProbe {
        status_run: Err(ExecError::Timeout { secs: 20 }),
        status: Err(String::new()),
        list_run: Err(ExecError::Timeout { secs: 20 }),
        list: Err(String::new()),
    };
    assert!(probe_remote("a", "a", &Some(dead)).error.is_some());
    let local = probe_local(&Ok(status()), &Err("no list".into()));
    assert!(local.local);
    assert!(local.plugin_error.is_some());
}

#[test]
fn hosts_are_ordered_with_this_machine_first() {
    let mut local = host("zeta", 20, "0.8.2");
    local.local = true;
    let sorted = sort_hosts(vec![host("b", 20, "1"), local, host("a", 20, "1")]);
    assert_eq!(
        sorted.iter().map(|h| h.host.as_str()).collect::<Vec<_>>(),
        vec!["zeta", "a", "b"]
    );
}
