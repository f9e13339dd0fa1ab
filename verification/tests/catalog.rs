use herdr_updater::catalog::{
    cache_is_fresh, cmd_install, cmd_search, compatible_with, fetch, fetch_args, from_cache,
    install_args, install_source, installed_map, load, open_outcome, open_store, parse, persist_refusal,
    read_bounded, resolve, search, supports_platform, Age, CachedFile, Catalog, CatalogItem,
    Manifest, Platform, Repository, Snapshot, SortMode,
};
use herdr_updater::duration::Duration;
use herdr_updater::exec::{ExecError, Output};
use herdr_updater::plugins::InstalledPlugin;

const FIXTURE: &str = r#"{
  "schemaVersion": 1,
  "generatedAt": "2026-08-30T00:00:00Z",
  "plugins": [{
    "fullName": "diegopzz/herdr-tools",
    "owner": "diegopzz",
    "name": "herdr-tools",
    "description": "Useful terminal tools",
    "url": "https://github.com/diegopzz/herdr-tools",
    "stars": 12,
    "language": "Rust",
    "pushedAt": "2026-08-30T00:00:00Z",
    "headCommit": "aaaaaaaaaaaaaaaaaaaaaaaaaaaaaaaaaaaaaaaa",
    "starsDelta7d": 3,
    "manifests": [{
      "path": "plugins/finder/herdr-plugin.toml",
      "id": "tools.finder",
      "name": "Finder",
      "version": "1.0.0",
      "minHerdrVersion": "0.8.2",
      "description": "Find plugins",
      "platforms": ["linux", "macos", "windows"]
    }]
  }]
}"#;

fn text(value: &serde_json::Value, name: &str) -> String {
    value[name].as_str().unwrap_or_default().to_string()
}

fn optional(value: &serde_json::Value, name: &str) -> Option<String> {
    value[name].as_str().map(str::to_string)
}

fn snapshot(source: &str) -> Result<Snapshot, String> {
    let value: serde_json::Value = serde_json::from_str(source).map_err(|e| e.to_string())?;
    let repositories = value["plugins"].as_array().cloned().unwrap_or_default();
    Ok(Snapshot {
        schema_version: value["schemaVersion"].as_u64().unwrap_or(0) as u32,
        generated_at: text(&value, "generatedAt"),
        plugins: repositories
            .iter()
            .map(|repository| Repository {
                full_name: text(repository, "fullName"),
                owner: text(repository, "owner"),
                name: text(repository, "name"),
                description: optional(repository, "description"),
                url: text(repository, "url"),
                stars: repository["stars"].as_u64().unwrap_or(0),
                language: optional(repository, "language"),
                pushed_at: optional(repository, "pushedAt"),
                head_commit: text(repository, "headCommit"),
                stars_delta_7d: repository["starsDelta7d"].as_i64(),
                manifests: repository["manifests"]
                    .as_array()
                    .cloned()
                    .unwrap_or_default()
                    .iter()
                    .map(|manifest| Manifest {
                        path: text(manifest, "path"),
                        id: text(manifest, "id"),
                        name: text(manifest, "name"),
                        version: text(manifest, "version"),
                        min_herdr_version: text(manifest, "minHerdrVersion"),
                        description: optional(manifest, "description"),
                        platforms: manifest["platforms"].as_array().map(|list| {
                            list.iter()
                                .map(|p| p.as_str().unwrap_or_default().to_string())
                                .collect()
                        }),
                    })
                    .collect(),
            })
            .collect(),
    })
}

fn fixture_items() -> Vec<CatalogItem> {
    parse(FIXTURE, &snapshot(FIXTURE)).unwrap().1
}

fn catalog() -> Catalog {
    Catalog {
        generated_at: "2026-08-30T00:00:00Z".into(),
        items: fixture_items(),
        stale: false,
        source: "network",
    }
}

#[test]
fn validates_and_flattens_marketplace_items() {
    let (_, items) = parse(FIXTURE, &snapshot(FIXTURE)).unwrap();
    assert_eq!(items.len(), 1);
    assert_eq!(items[0].source, "diegopzz/herdr-tools/plugins/finder");
    assert_eq!(items[0].head_commit, "a".repeat(40));
}

#[test]
fn search_prefers_an_exact_plugin_id() {
    let mut items = fixture_items();
    let mut second = items[0].clone();
    second.plugin_id = "other.finder".into();
    second.name = "Other Finder".into();
    second.stars = 1000;
    items.push(second);
    let matches = search(&items, "tools.finder", SortMode::Relevance, 10);
    assert_eq!(matches[0].plugin_id, "tools.finder");
}

#[test]
fn rejects_a_manifest_path_that_could_escape_the_source() {
    assert!(install_source("diegopzz", "repo", "../herdr-plugin.toml").is_err());
}

#[test]
fn semantic_versions_are_compared_numerically() {
    assert!(compatible_with(Some("0.10.0"), "0.8.2"));
    assert!(!compatible_with(Some("0.7.9"), "0.8.2"));
}

#[test]
fn a_search_gives_only_hits_in_order() {
    let mut items = fixture_items();
    for (id, stars, delta) in [("b.tool", 30, 1), ("a.tool", 20, 9), ("c.other", 99, 0)] {
        let mut item = items[0].clone();
        item.plugin_id = id.into();
        item.name = id.into();
        item.stars = stars;
        item.stars_delta_7d = Some(delta);
        item.description = None;
        item.source = "x/y".into();
        item.repository = "x/y".into();
        items.push(item);
    }
    let by = |sort| {
        search(&items, "tool", sort, 10)
            .iter()
            .map(|item| item.plugin_id.clone())
            .collect::<Vec<_>>()
    };
    let stars = by(SortMode::Stars);
    assert_eq!(stars.len(), 3);
    assert_eq!(stars[0], "b.tool");
    assert_eq!(by(SortMode::Trending)[0], "a.tool");
    assert!(!by(SortMode::Name).contains(&"c.other".to_string()));
    assert_eq!(search(&items, "tool", SortMode::Stars, 1).len(), 1);
    assert_eq!(search(&items, "", SortMode::Name, 10).len(), 4);
}

#[test]
fn a_snapshot_that_is_not_sound_is_refused() {
    assert!(parse("x", &Err("not json".into())).is_err());
    let mut odd = snapshot(FIXTURE).unwrap();
    odd.schema_version = 2;
    assert!(parse(FIXTURE, &Ok(odd)).is_err());
}

#[test]
fn items_that_do_not_validate_are_left_out_or_refused() {
    let mut odd = snapshot(FIXTURE).unwrap();
    odd.plugins[0].head_commit = "main".into();
    match parse(FIXTURE, &Ok(odd)) {
        Ok((_, items)) => assert!(items.is_empty()),
        Err(error) => assert!(!error.is_empty()),
    }
}

#[test]
fn sources_join_the_directory_of_the_manifest() {
    assert_eq!(install_source("o", "r", "herdr-plugin.toml").unwrap(), "o/r");
    assert_eq!(install_source("o", "r", "a/b/herdr-plugin.toml").unwrap(), "o/r/a/b");
    assert!(install_source("-o", "r", "/herdr-plugin.toml").is_err());
}

#[test]
fn a_cache_is_fresh_up_to_its_age() {
    let hour = Duration::from_secs(3_600);
    let age = |seconds, nanos| Some(Age { seconds, nanos });
    assert!(cache_is_fresh(true, age(3_600, 0), &hour));
    assert!(!cache_is_fresh(true, age(3_600, 1), &hour));
    assert!(!cache_is_fresh(false, age(1, 0), &hour));
    assert!(!cache_is_fresh(true, None, &hour));
}

#[test]
fn the_network_wins_and_a_stale_cache_is_labelled() {
    let accepted = || ("now".to_string(), fixture_items());
    let fresh = load(Ok(accepted()), Err("no cache".into())).unwrap();
    assert!(!fresh.stale);
    let stale = load(Err("offline".into()), Ok(Ok(accepted()))).unwrap();
    assert!(stale.stale);
    assert!(load(Err("offline".into()), Err("no cache".into())).unwrap_err().contains("offline"));
    assert!(from_cache(true, true, Ok(accepted())).is_none());
    assert!(from_cache(false, true, Ok(accepted())).is_some());
    assert!(from_cache(false, false, Ok(accepted())).is_none());
}

#[test]
fn files_of_the_cache_are_bounded() {
    let found = |regular, bytes| CachedFile::Found { regular, bytes, content: Ok("x".into()) };
    assert_eq!(read_bounded("c", &found(true, 1)).unwrap(), "x");
    assert!(read_bounded("c", &found(false, 1)).is_err());
    assert!(read_bounded("c", &found(true, u64::MAX)).is_err());
    assert!(persist_refusal("c", 1, Some(false)).is_some());
    assert!(persist_refusal("c", 1, None).is_none());
}

#[test]
fn fetching_needs_curl_and_an_answer() {
    let ok = Ok(Output { code: 0, stdout: "{}".into(), stderr: String::new() });
    assert_eq!(fetch(true, &ok).unwrap(), "{}");
    assert!(fetch(false, &ok).is_err());
    assert!(fetch(true, &Err(ExecError::Timeout { secs: 1 })).is_err());
    assert!(fetch_args(0).contains(&"1".to_string()));
}

#[test]
fn a_plugin_is_resolved_by_its_id() {
    let all = catalog();
    assert_eq!(resolve(&all, "tools.finder").unwrap().name, "Finder");
    assert!(resolve(&all, "nothing").is_err());
    assert!(cmd_install(&all, "tools.finder", Platform::Linux).is_ok());
    let mut narrow = catalog();
    narrow.items[0].platforms = Some(vec!["macos".into()]);
    assert!(cmd_install(&narrow, "tools.finder", Platform::Linux).is_err());
    assert!(!supports_platform(&narrow.items[0], Platform::Linux));
    assert!(supports_platform(&narrow.items[0], Platform::Macos));
}

#[test]
fn results_are_printed() {
    let items = fixture_items();
    let results = search(&items, "finder", SortMode::Relevance, 10);
    let lines = cmd_search(&results, true);
    assert_eq!(lines[0], "Herdr plugins — 1 result(s) (stale cache)");
    assert!(lines[1].contains("tools.finder"));
    assert!(lines[2].contains("Find plugins"));
}

#[test]
fn the_popup_is_opened_per_platform() {
    assert!(open_store(Platform::Windows).contains(&"store-windows".to_string()));
    assert!(open_store(Platform::Linux).contains(&"store".to_string()));
    let bad = Ok(Output { code: 1, stdout: String::new(), stderr: "no".into() });
    assert!(open_outcome(&bad).is_err());
}

#[test]
fn installed_plugins_are_mapped_to_their_kind() {
    let plugin = InstalledPlugin {
        plugin_id: "a".into(),
        version: None,
        min_herdr_version: None,
        plugin_root: None,
        source: None,
        enabled: true,
    };
    let map = installed_map(&vec![plugin]);
    assert_eq!(map.len(), 1);
    assert!(map.contains_key("a"));
}

#[test]
fn sort_orders_have_names() {
    assert_eq!(SortMode::parse("popular"), Ok(SortMode::Stars));
    assert_eq!(SortMode::parse("updated"), Ok(SortMode::Recent));
    assert!(SortMode::parse("mystery").is_err());
}

#[test]
fn an_install_names_the_indexed_commit() {
    let items = fixture_items();
    let commit = "a".repeat(40);
    assert_eq!(
        install_args(&items[0], true).unwrap(),
        vec![
            "plugin",
            "install",
            "diegopzz/herdr-tools/plugins/finder",
            "--ref",
            commit.as_str(),
            "--yes",
        ]
    );
    assert_eq!(install_args(&items[0], false).unwrap().len(), 5);
}

#[test]
fn a_full_search_leaves_out_only_lower_ranks() {
    let mut items = fixture_items();
    let mut popular = items[0].clone();
    popular.plugin_id = "other.finder".into();
    popular.name = "Other Finder".into();
    popular.stars = 1000;
    items.push(popular);
    let all = search(&items, "find", SortMode::Stars, 10);
    assert_eq!(all.len(), 2);
    let best = search(&items, "find", SortMode::Stars, 1);
    assert_eq!(best.len(), 1);
    assert_eq!(best[0].plugin_id, "other.finder");
}
