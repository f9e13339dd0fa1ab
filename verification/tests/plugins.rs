use herdr_updater::config::Config;
use herdr_updater::exec::{ExecError, Output};
use herdr_updater::json::Found;
use herdr_updater::plugins::{
    compare, compare_by_curl, compare_by_gh, decide, full_commit, inherited_outcome, inspect_all,
    inspect_one, install, install_outcome, install_source, list_installed, mentions_rate_limit,
    relation_from_status, relation_of_member, resolve_remote, settled_commit, sort_states, split_status,
    valid_ref, valid_segment, valid_subdir, validate_source, verify, verify_actions, Answer,
    Channel, Decision, InspectStage, InstalledPlugin, PluginSource, PluginState, Relation,
};

fn state(channel: Channel, relation: Relation) -> PluginState {
    PluginState {
        plugin_id: "sample".into(),
        version: None,
        plugin_root: None,
        source_kind: "github".into(),
        owner: Some("diegopzz".into()),
        repo: Some("herdr-sample".into()),
        subdir: None,
        requested_ref: None,
        installed_sha: Some("a".repeat(40)),
        remote_sha: Some("b".repeat(40)),
        channel,
        relation,
        update_available: relation == Relation::Behind,
        error: None,
    }
}

fn installed(id: &str, commit: &str) -> InstalledPlugin {
    InstalledPlugin {
        plugin_id: id.into(),
        version: Some("1.0.0".into()),
        min_herdr_version: Some("0.8.2".into()),
        plugin_root: None,
        source: Some(PluginSource {
            kind: "github".into(),
            owner: Some("diegopzz".into()),
            repo: Some("herdr-sample".into()),
            subdir: None,
            requested_ref: Some("main".into()),
            resolved_commit: Some(commit.into()),
        }),
        enabled: true,
    }
}

fn ran(stdout: &str) -> Result<Output, ExecError> {
    Ok(Output { code: 0, stdout: stdout.into(), stderr: String::new() })
}

fn failed(code: i32, stderr: &str) -> Result<Output, ExecError> {
    Ok(Output { code, stdout: String::new(), stderr: stderr.into() })
}

#[test]
fn full_shas_are_commit_pins_but_short_hex_can_be_a_branch() {
    assert!(full_commit(&"a".repeat(40)));
    assert!(!full_commit("deadbeef"));
}

#[test]
fn linked_plugins_are_never_update_candidates() {
    assert!(matches!(
        decide(&state(Channel::Linked, Relation::NotApplicable), &Config::default()),
        Decision::Hold(reason) if reason.contains("linked")
    ));
}

#[test]
fn only_behind_branches_are_updateable() {
    assert_eq!(
        decide(&state(Channel::Branch, Relation::Behind), &Config::default()),
        Decision::Update
    );
    assert!(matches!(
        decide(&state(Channel::Branch, Relation::Diverged), &Config::default()),
        Decision::Hold(_)
    ));
}

#[test]
fn immutable_tags_are_held() {
    assert!(matches!(
        decide(&state(Channel::Tag, Relation::Behind), &Config::default()),
        Decision::Hold(reason) if reason == "immutable pin"
    ));
}

#[test]
fn source_metadata_rejects_path_and_option_injection() {
    assert!(valid_segment("herdr-mirror", 100));
    assert!(!valid_segment("../repo", 100));
    assert!(!valid_subdir("../plugin"));
    assert!(!valid_subdir("plugin/../../bad"));
    assert!(valid_ref("release/v1.2"));
    assert!(!valid_ref("-oProxyCommand=bad"));
    assert!(!valid_ref("main..evil"));
}

#[test]
fn a_spent_api_budget_is_reported_as_rate_limited_not_as_no_update() {
    assert!(matches!(
        decide(&state(Channel::Branch, Relation::RateLimited), &Config::default()),
        Decision::Error(reason) if reason.contains("rate limit")
    ));
}

#[test]
fn rate_limit_wording_covers_every_shape_github_uses() {
    assert!(mentions_rate_limit("API rate limit exceeded for 1.2.3.4"));
    assert!(mentions_rate_limit("You have exceeded a secondary rate limit"));
    assert!(!mentions_rate_limit("Not Found"));
}

#[test]
fn a_status_suffixed_response_splits_into_body_and_code() {
    assert_eq!(
        split_status("{\"status\":\"ahead\"}\n200"),
        ("{\"status\":\"ahead\"}", Some(200))
    );
    assert_eq!(split_status("403").1, Some(403));
    assert_eq!(split_status("no status here").1, None);
}

#[test]
fn github_compare_direction_is_mapped_from_the_remote_head() {
    assert_eq!(relation_from_status("ahead"), Some(Relation::Behind));
    assert_eq!(relation_from_status("behind"), Some(Relation::Ahead));
}

#[test]
fn other_compare_answers_are_mapped_or_unknown() {
    assert_eq!(relation_from_status("identical"), Some(Relation::Same));
    assert_eq!(relation_from_status("diverged"), Some(Relation::Diverged));
    assert_eq!(relation_from_status("sideways"), None);
    let status = |text: Option<&str>| Ok(Found { text: text.map(str::to_string), number: None });
    assert_eq!(relation_of_member(status(Some("ahead"))), Ok(Relation::Behind));
    assert_eq!(
        relation_of_member(status(None)),
        Err("GitHub compare succeeded but reported no recognisable status".into())
    );
    assert_eq!(
        relation_of_member(Err("expected value".into())),
        Err("GitHub compare response is not JSON: expected value".into())
    );
}

#[test]
fn every_relation_has_its_decision() {
    let config = Config::default();
    let of = |relation| decide(&state(Channel::Branch, relation), &config);
    assert_eq!(of(Relation::Same), Decision::Current);
    assert!(matches!(of(Relation::Ahead), Decision::Hold(_)));
    assert!(matches!(of(Relation::Unknown), Decision::Error(_)));
    assert!(matches!(
        decide(&state(Channel::Unmanaged, Relation::NotApplicable), &config),
        Decision::Hold(_)
    ));
    let mut broken = state(Channel::Branch, Relation::Behind);
    broken.error = Some("boom".into());
    assert_eq!(decide(&broken, &config), Decision::Error("boom".into()));
    let narrow = Config { trusted_owners: vec!["other".into()], ..Config::default() };
    assert!(matches!(
        decide(&state(Channel::Branch, Relation::Behind), &narrow),
        Decision::Hold(_)
    ));
    let mut nameless = state(Channel::Branch, Relation::Behind);
    nameless.owner = None;
    assert!(matches!(decide(&nameless, &config), Decision::Error(_)));
}

#[test]
fn sources_are_validated_before_they_become_arguments() {
    assert!(validate_source("diegopzz/herdr-sample").is_ok());
    assert!(validate_source("diegopzz/herdr-sample/plugins/a").is_ok());
    assert!(validate_source("diegopzz").is_err());
    assert!(validate_source("diegopzz/..").is_err());
    let args = install_source("diegopzz/herdr-sample", Some("main"), true).unwrap();
    assert!(args.contains(&"diegopzz/herdr-sample".to_string()));
    assert!(args.contains(&"main".to_string()));
    assert!(install_source("diegopzz/herdr-sample", Some("-x"), true).is_err());
    assert!(install_source("nonsense", None, true).is_err());
    assert!(install(&state(Channel::Branch, Relation::Behind), None).is_ok());
    let mut nameless = state(Channel::Branch, Relation::Behind);
    nameless.repo = None;
    assert_eq!(install(&nameless, None).unwrap_err(), "plugin has no GitHub source");
}

#[test]
fn a_remote_ref_resolves_to_a_commit() {
    let sha = "c".repeat(40);
    let (commit, channel) =
        resolve_remote(Some("main"), &ran(&format!("{sha}\trefs/heads/main\n"))).unwrap();
    assert_eq!(commit, sha);
    assert_eq!(channel, Channel::Branch);
    let (_, head) = resolve_remote(None, &ran(&format!("{sha}\tHEAD\n"))).unwrap();
    assert_eq!(head, Channel::DefaultBranch);
    assert!(resolve_remote(Some("main"), &ran("")).is_err());
    assert!(resolve_remote(Some("main"), &failed(128, "fatal")).is_err());
}

#[test]
fn equal_commits_need_no_service() {
    let sha = "a".repeat(40);
    assert!(matches!(compare(&sha, &sha), Answer::Settled(Ok(Relation::Same))));
    assert!(matches!(compare(&sha, &"b".repeat(40)), Answer::Open { rate_limited: false }));
}

#[test]
fn the_comparison_is_read_from_the_answers() {
    let ahead = Some(ran("ahead\n"));
    assert!(matches!(compare_by_gh(&ahead), Answer::Settled(Ok(Relation::Behind))));
    assert!(matches!(compare_by_gh(&None), Answer::Open { .. }));
    let limited = Some(failed(1, "API rate limit exceeded"));
    assert!(matches!(compare_by_gh(&limited), Answer::Open { rate_limited: true }));
    assert_eq!(
        compare_by_curl(&Some(ran("{\"status\":\"behind\"}\n200")), false),
        Ok(Relation::Ahead)
    );
    assert_eq!(
        compare_by_curl(&Some(ran("{\"message\":\"API rate limit exceeded\"}\n403")), false),
        Ok(Relation::RateLimited)
    );
    assert!(compare_by_curl(&Some(ran("not json\n200")), false).is_err());
}

#[test]
fn an_inspection_ends_with_the_relation() {
    let sha = "a".repeat(40);
    let mut run = inspect_one(installed("sample", &sha));
    assert_eq!(run.stage, InspectStage::Resolve);
    assert_eq!(run.program(), "git");
    assert!(run.args(20).iter().any(|arg| arg.contains("diegopzz/herdr-sample")));
    let remote = "b".repeat(40);
    run = run.advance(Some(ran(&format!("{remote}\trefs/heads/main\n"))));
    assert_eq!(run.stage, InspectStage::AskGh);
    run = run.advance(None);
    assert!(matches!(run.stage, InspectStage::AskCurl { .. }));
    run = run.advance(Some(ran("{\"status\":\"ahead\"}\n200")));
    assert_eq!(run.stage, InspectStage::Done);
    assert_eq!(run.state.relation, Relation::Behind);
    assert!(run.state.update_available);
    assert_eq!(run.state.remote_sha.as_deref(), Some(remote.as_str()));
}

#[test]
fn an_unknown_plugin_is_an_error() {
    let sha = "a".repeat(40);
    assert_eq!(
        inspect_all(vec![installed("sample", &sha)], Some("other")).unwrap_err(),
        "plugin \"other\" is not installed"
    );
    assert_eq!(inspect_all(vec![installed("sample", &sha)], Some("sample")).unwrap().len(), 1);
    assert_eq!(inspect_all(Vec::new(), None).unwrap().len(), 0);
}

#[test]
fn states_are_sorted_by_id() {
    let mut second = state(Channel::Branch, Relation::Same);
    second.plugin_id = "alpha".into();
    let sorted = sort_states(vec![state(Channel::Branch, Relation::Same), second]);
    assert_eq!(sorted[0].plugin_id, "alpha");
    assert_eq!(sorted[1].plugin_id, "sample");
}

#[test]
fn a_reinstall_is_verified() {
    let sha = "a".repeat(40);
    let list = vec![installed("sample", &sha)];
    assert!(verify(&list, "sample", &sha).is_ok());
    assert!(verify(&list, "sample", &"b".repeat(40)).is_err());
    assert!(verify(&list, "other", &sha).is_err());
    assert!(verify_actions(&ran("{}")).is_ok());
    assert!(verify_actions(&failed(1, "no")).is_err());
    assert!(install_outcome(&ran("")).is_ok());
    assert!(install_outcome(&Err(ExecError::Timeout { secs: 3 })).is_err());
    assert!(inherited_outcome(&Ok(0)).is_ok());
    assert!(inherited_outcome(&Ok(1)).is_err());
}

#[test]
fn the_plugin_list_is_read_or_refused() {
    assert_eq!(list_installed(&ran("[]"), Ok(Vec::new())).unwrap().len(), 0);
    assert!(list_installed(&failed(2, "gone"), Ok(Vec::new())).unwrap_err().contains("gone"));
    assert!(list_installed(&ran("x"), Err("bad".into())).unwrap_err().contains("bad"));
}

#[test]
fn a_refused_budget_is_kept_when_the_fallback_settles_nothing() {
    let refused = Some(Ok(Output {
        code: 1,
        stdout: String::new(),
        stderr: "HTTP 403: API rate limit exceeded".into(),
    }));
    assert!(matches!(compare_by_gh(&refused), Answer::Open { rate_limited: true }));
    assert_eq!(compare_by_curl(&None, true), Ok(Relation::RateLimited));
    let failed = Some(Ok(Output { code: 6, stdout: String::new(), stderr: String::new() }));
    assert_eq!(compare_by_curl(&failed, true), Ok(Relation::RateLimited));
    assert_eq!(
        compare_by_curl(&failed, false),
        Err("could not classify the commit relationship with gh or curl".into())
    );
}

#[test]
fn a_commit_can_stand_for_a_ref() {
    let commit = "0123456789abcdef0123456789abcdef01234567";
    assert!(full_commit(commit));
    assert!(valid_ref(commit));
    assert_eq!(
        install_source("owner/repo", Some(commit), false).unwrap(),
        vec!["plugin", "install", "owner/repo", "--ref", commit]
    );
}

#[test]
fn an_install_settles_at_the_expected_commit() {
    let sha = "a".repeat(40);
    let listed = vec![installed("sample", &sha)];
    assert_eq!(settled_commit(&listed, "sample", Some(&"A".repeat(40))), Ok("A".repeat(40)));
    assert_eq!(settled_commit(&listed, "sample", None), Ok(sha.clone()));
    assert_eq!(
        settled_commit(&listed, "sample", Some("b")),
        Err(format!("sample resolved to {sha}, expected b"))
    );
    assert_eq!(
        settled_commit(&listed, "other", None),
        Err("other disappeared after install".into())
    );
    let mut bare = installed("sample", &sha);
    bare.source = None;
    assert_eq!(
        settled_commit(&vec![bare], "sample", None),
        Err("sample has no resolved commit after install".into())
    );
}

#[test]
fn abuse_detection_means_wait() {
    let message =
        "You have triggered an abuse detection mechanism. Please wait a few minutes before you try again.";
    assert!(mentions_rate_limit(message));
    let answer = format!("{{\"message\":\"{message}\"}}\n403");
    assert_eq!(compare_by_curl(&Some(ran(&answer)), false), Ok(Relation::RateLimited));
}
