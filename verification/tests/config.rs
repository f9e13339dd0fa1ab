use herdr_updater::config::{
    config_dir_args, env_dir, fingerprint, inspect_keys, judge_keys, known_keys, load, nearest_key,
    parse_duration, parse_quiet_hours, resolve_dir, validate_value, Config, ConfigFile, DirSources,
    Policy,
};
use herdr_updater::exec::{ExecError, Output};
use herdr_updater::matching::{edit_distance, wildcard};

fn read(source: &str, parsed: Config) -> ConfigFile {
    ConfigFile::Read { source: source.to_string(), parsed: Ok(parsed) }
}

fn no_sources() -> DirSources {
    DirSources {
        plugin_config_dir: None,
        config_dir: None,
        appdata: None,
        home: None,
        user_profile: None,
        windows: false,
    }
}

#[test]
fn defaults_are_non_mutating() {
    let cfg = Config::default();
    assert_eq!(cfg.policy, Policy::Notify);
    assert!(!cfg.allow_protocol_change);
    assert!(cfg.require_fast_forward);
}

#[test]
fn allowlist_and_owner_rules_both_apply() {
    let cfg = Config {
        allow: vec!["diegopzz/herdr-*".into()],
        trusted_owners: vec!["diegopzz".into()],
        ..Config::default()
    };
    assert!(cfg.target_allowed("diegopzz", "herdr-mirror"));
    assert!(!cfg.target_allowed("somebody", "herdr-mirror"));
    assert!(!cfg.target_allowed("diegopzz", "unrelated"));
}

#[test]
fn wildcard_is_case_insensitive_and_bounded_to_the_value() {
    assert!(wildcard("DiegoPzz/herdr-*", "diegopzz/herdr-updater"));
    assert!(wildcard("*/herdr-?", "x/herdr-a"));
    assert!(!wildcard("*/herdr-?", "x/herdr-ab"));
}

#[test]
fn config_cannot_disable_fast_forward_enforcement() {
    let parsed = Config { require_fast_forward: false, ..Config::default() };
    let result = load("config.toml", read("require_fast_forward = false\n", parsed));
    assert!(matches!(result, Err(error) if error.contains("fast-forward-only")));
}

#[test]
fn durations_support_compound_values_and_require_units() {
    assert_eq!(parse_duration("1h30m").unwrap().as_secs(), 5_400);
    assert_eq!(parse_duration("2d3h4m5s").unwrap().as_secs(), 183_845);
    assert!(parse_duration("30").is_err());
    assert!(parse_duration("1h 30m").is_err());
}

#[test]
fn quiet_hours_validate_clock_ranges() {
    assert_eq!(parse_quiet_hours("22:00-07:30").unwrap(), (1_320, 450));
    assert!(parse_quiet_hours("24:00-07:30").is_err());
    assert!(parse_quiet_hours("07:30-07:30").is_err());
}

#[test]
fn known_keys_are_taken_from_the_struct_itself() {
    let keys = known_keys();
    for expected in ["policy", "trusted_owners", "allow_channel_mismatch"] {
        assert!(keys.iter().any(|key| key == expected), "missing {expected}");
    }
}

#[test]
fn a_misspelled_setting_is_an_error_not_a_silent_default() {
    let source = "trusted_owner = [\"diegopzz\"]\n";
    let error = load("config.toml", read(source, Config::default()))
        .expect_err("a near-miss key must fail closed");
    assert!(error.contains("trusted_owner"), "{error}");
    assert!(error.contains("trusted_owners"), "{error}");
}

#[test]
fn a_key_from_a_newer_build_warns_instead_of_bricking_an_older_host() {
    let loaded = load("config.toml", read("some_future_capability = true\n", Config::default()))
        .expect("an unrecognisable key must not fail the run");
    assert_eq!(loaded.warnings.len(), 1);
    assert!(loaded.warnings[0].contains("some_future_capability"));
    assert_eq!(loaded.value.policy, Policy::Notify);
}

#[test]
fn a_valid_config_produces_no_warnings() {
    let parsed = Config {
        policy: Policy::Auto,
        trusted_owners: vec!["diegopzz".into()],
        ..Config::default()
    };
    let source = "policy = \"auto\"\ntrusted_owners = [\"diegopzz\"]\n";
    let loaded = load("config.toml", read(source, parsed)).expect("a valid config must load");
    assert!(loaded.warnings.is_empty(), "{:?}", loaded.warnings);
    assert_eq!(loaded.value.policy, Policy::Auto);
}

#[test]
fn case_and_separator_slips_are_treated_as_typos() {
    assert_eq!(
        nearest_key("Check-Interval", &known_keys()).as_deref(),
        Some("check_interval")
    );
    assert_eq!(nearest_key("zzz", &known_keys()), None);
}

#[test]
fn edit_distance_matches_known_values() {
    assert_eq!(edit_distance("policy", "policy"), 0);
    assert_eq!(edit_distance("polciy", "policy"), 2);
    assert_eq!(edit_distance("", "abc"), 3);
}

#[test]
fn jitter_cannot_exceed_the_check_interval() {
    let value = Config {
        check_interval: "10m".into(),
        jitter: "11m".into(),
        ..Config::default()
    };
    assert!(validate_value(&value, "config.toml").unwrap_err().contains("jitter cannot exceed"));
}

#[test]
fn durations_of_concatenated_values_add_up() {
    let a = parse_duration("2h").unwrap().as_secs();
    let b = parse_duration("45m").unwrap().as_secs();
    assert_eq!(parse_duration("2h45m").unwrap().as_secs(), a + b);
    assert!(parse_duration("").is_err());
    assert!(parse_duration("5w").is_err());
    assert!(parse_duration("99999999999999999999s").is_err());
}

#[test]
fn quiet_hours_name_what_is_wrong() {
    assert_eq!(parse_quiet_hours("22:00").unwrap_err(), "quiet_hours must use HH:MM-HH:MM");
    assert_eq!(
        parse_quiet_hours("9:00-10:00").unwrap_err(),
        "quiet_hours has an invalid start time"
    );
    assert_eq!(
        parse_quiet_hours("09:00-10:60").unwrap_err(),
        "quiet_hours has an invalid end time"
    );
}

#[test]
fn allow_rules_only_narrow() {
    let open = Config::default();
    let owners = Config { trusted_owners: vec!["DiegoPzz".into()], ..Config::default() };
    assert!(open.target_allowed("anyone", "anything"));
    assert!(owners.target_allowed("diegopzz", "anything"));
    assert!(!owners.target_allowed("anyone", "anything"));
}

#[test]
fn a_literal_pattern_matches_only_itself() {
    assert!(wildcard("abc", "ABC"));
    assert!(!wildcard("abc", "abcd"));
    assert!(!wildcard("abc", "ab"));
    assert!(wildcard("*", ""));
    assert!(wildcard("a*c", "abbbc"));
}

#[test]
fn edit_distance_is_symmetric_and_bounded() {
    for (a, b) in [("kitten", "sitting"), ("", "x"), ("same", "same")] {
        assert_eq!(edit_distance(a, b), edit_distance(b, a));
        assert!(edit_distance(a, b) <= a.len().max(b.len()));
    }
    assert_eq!(edit_distance("kitten", "sitting"), 3);
}

#[test]
fn a_missing_file_means_the_defaults() {
    let loaded = load("config.toml", ConfigFile::Missing).unwrap();
    assert!(!loaded.existed);
    assert_eq!(loaded.path, "config.toml");
    assert!(load("config.toml", ConfigFile::Unreadable("denied".into()))
        .unwrap_err()
        .contains("denied"));
    let broken = ConfigFile::Read {
        source: "policy = \"auto\"\n".into(),
        parsed: Err("bad type".into()),
    };
    assert!(load("config.toml", broken).unwrap_err().contains("bad type"));
}

#[test]
fn keys_are_read_from_the_text() {
    // What is not TOML at all is left to the typed parse, which says more.
    assert_eq!(inspect_keys("policy = = 1", "config.toml"), Ok(Vec::new()));
    assert!(inspect_keys("polcy = 1\n", "config.toml").is_err());
    assert_eq!(inspect_keys("policy = \"auto\"\n", "config.toml"), Ok(Vec::new()));
    let warnings = inspect_keys("zzzzzzzzzzzzz = 1\n", "config.toml").unwrap();
    assert_eq!(warnings.len(), 1);
}

#[test]
fn keys_are_judged_by_their_resemblance() {
    assert_eq!(judge_keys(&vec!["jitter".to_string()], "c"), Ok(Vec::new()));
    assert!(judge_keys(&vec!["jiter".to_string()], "c").unwrap_err().contains("jitter"));
}

#[test]
fn timing_bounds_are_enforced() {
    let fast = Config { check_interval: "59s".into(), jitter: "0s".into(), ..Config::default() };
    assert!(validate_value(&fast, "c").is_err());
    let noisy = Config { quiet_hours: Some("25:00-01:00".into()), ..Config::default() };
    assert!(validate_value(&noisy, "c").is_err());
    assert!(validate_value(&Config::default(), "c").is_ok());
}

#[test]
fn the_fingerprint_is_fnv1a_in_hex() {
    assert_eq!(fingerprint(b""), "cbf29ce484222325");
    assert_eq!(fingerprint(b"a"), "af63dc4c8601ec8c");
}

#[test]
fn the_directory_comes_from_the_environment_first() {
    let named = DirSources { plugin_config_dir: Some("/plugin".into()), ..no_sources() };
    assert_eq!(env_dir(&named).as_deref(), Some("/plugin"));
    assert_eq!(env_dir(&no_sources()), None);
    let reported = Ok(Output { code: 0, stdout: "/reported\n".into(), stderr: String::new() });
    assert_eq!(resolve_dir(&named, &reported).base, "/plugin");
    assert_eq!(resolve_dir(&no_sources(), &reported).base, "/reported");
    let home = DirSources { home: Some("/home/me".into()), ..no_sources() };
    let fallback = resolve_dir(&home, &Err(ExecError::Timeout { secs: 1 }));
    assert_eq!(fallback.base, "/home/me");
    assert!(fallback.components.iter().any(|part| part.contains("herdr-updater")));
    assert_eq!(config_dir_args(), vec!["plugin", "config-dir", "herdr-updater"]);
}

#[test]
fn intervals_fall_back_where_they_do_not_parse() {
    let odd = Config {
        check_interval: "soon".into(),
        ref_cache_ttl: "30d".into(),
        ..Config::default()
    };
    assert_eq!(odd.check_every().as_secs(), 21_600);
    assert_eq!(odd.ref_cache_seconds(), 21_600);
    assert_eq!(odd.catalog_refresh_every().as_secs(), 1_800);
    assert_eq!(odd.fleet_sync_every().as_secs(), 21_600);
    assert_eq!(odd.initial_delay_value().as_secs(), 300);
}

#[test]
fn edit_distance_is_the_least_number_of_edits() {
    assert_eq!(edit_distance("policy", "polic"), 1);
    assert_eq!(edit_distance("policy", "policys"), 1);
    assert_eq!(edit_distance("policy", "pokicy"), 1);
    let words = ["", "abc", "acb", "policy", "polciy", "jitter"];
    for a in words {
        for b in words {
            for c in words {
                assert!(edit_distance(a, c) <= edit_distance(a, b) + edit_distance(b, c));
            }
        }
    }
}
