use herdr_updater::refcache::{
    compare_key, path, prune, readable_size, ref_key, CacheFile, Disk, Entry, Mode, RefCache,
    MAX_BYTES, MAX_ENTRIES,
};
use herdr_updater::textmap::TextMap;

fn again(disk: &Disk) -> Disk {
    let copy = |map: &TextMap<Entry>| {
        let mut out = TextMap::new();
        for i in 0..map.len() {
            out.insert(map.key_at(i).clone(), map.value_at(i).clone());
        }
        out
    };
    Disk { refs: copy(&disk.refs), compares: copy(&disk.compares) }
}

fn written(disk: Option<Disk>) -> CacheFile {
    match disk {
        Some(disk) => CacheFile::Found { regular: true, bytes: 100, parsed: Ok(disk) },
        None => CacheFile::Missing,
    }
}

#[test]
fn a_compare_answer_never_expires_because_commits_do_not_move() {
    let mut cache = RefCache::load(CacheFile::Missing, Mode::Use, 60);
    let key = compare_key("o", "r", &"a".repeat(40), &"b".repeat(40));
    cache.store_compare(&key, "behind");
    let disk = cache.persist();

    // Reloaded with a zero lifetime and in `Fresh` mode, the settings that turn
    // ref caching off, the compare answer must still hit.
    let reloaded = RefCache::load(written(disk), Mode::Fresh, 0);
    assert_eq!(reloaded.compare(&key).as_deref(), Some("behind"));
}

#[test]
fn a_ref_answer_expires_and_is_skipped_when_fresh_is_demanded() {
    let mut cache = RefCache::load(CacheFile::Missing, Mode::Use, 3_600);
    let key = ref_key("o", "r", Some("main"));
    cache.store_remote_ref(&key, &"c".repeat(40));
    let disk = cache.persist().unwrap();

    assert!(
        RefCache::load(written(Some(again(&disk))), Mode::Use, 3_600).remote_ref(&key).is_some(),
        "a ref inside its TTL should hit"
    );
    assert!(
        RefCache::load(written(Some(again(&disk))), Mode::Use, 0).remote_ref(&key).is_none(),
        "a zero TTL disables ref caching"
    );
    assert!(
        RefCache::load(written(Some(again(&disk))), Mode::Fresh, 3_600).remote_ref(&key).is_none(),
        "--refresh and mutations must always re-resolve"
    );
}

#[test]
fn an_unreadable_cache_is_an_empty_cache_not_an_error() {
    let bytes = b"{ not json";
    let error = serde_json::from_slice::<serde_json::Value>(bytes).unwrap_err();
    let file = CacheFile::Found {
        regular: true,
        bytes: bytes.len() as u64,
        parsed: Err(error.to_string()),
    };
    let cache = RefCache::load(file, Mode::Use, 60);
    assert!(cache.remote_ref(&ref_key("o", "r", None)).is_none());
}

#[test]
fn a_cache_that_is_too_large_or_no_file_is_empty() {
    let key = compare_key("o", "r", "a", "b");
    let mut cache = RefCache::load(CacheFile::Missing, Mode::Use, 60);
    cache.store_compare(&key, "behind");
    let disk = cache.persist().unwrap();
    let found = |regular, bytes| {
        let file = CacheFile::Found { regular, bytes, parsed: Ok(again(&disk)) };
        RefCache::load(file, Mode::Use, 60).compare(&key)
    };
    assert_eq!(found(true, MAX_BYTES).as_deref(), Some("behind"));
    assert_eq!(found(true, MAX_BYTES + 1), None);
    assert_eq!(found(false, 10), None);
}

#[test]
fn keys_separate_repos_refs_and_commit_pairs() {
    assert_ne!(ref_key("o", "r", Some("main")), ref_key("o", "r", Some("dev")));
    assert_ne!(ref_key("o", "r", None), ref_key("o", "x", None));
    assert_ne!(compare_key("o", "r", "a", "b"), compare_key("o", "r", "b", "a"));
}

#[test]
fn the_entry_bound_drops_the_oldest_first() {
    let mut entries = TextMap::new();
    for index in 0..(MAX_ENTRIES + 10) {
        entries.insert(
            format!("k{index:05}"),
            Entry { value: "v".into(), unix_seconds: index as u64 },
        );
    }
    prune(&mut entries);
    assert_eq!(entries.len(), MAX_ENTRIES);
    assert!(!entries.contains_key("k00000"), "oldest must go first");
    assert!(entries.contains_key(&format!("k{:05}", MAX_ENTRIES + 9)));
}

#[test]
fn a_ref_lives_exactly_as_long_as_it_may() {
    let mut cache = RefCache::load(CacheFile::Missing, Mode::Use, 100);
    cache.store_remote_ref_at("k", "sha", 1_000);
    let reloaded = RefCache::load(written(cache.persist()), Mode::Use, 100);
    assert_eq!(reloaded.remote_ref_at("k", 1_100).as_deref(), Some("sha"));
    assert_eq!(reloaded.remote_ref_at("k", 1_101), None);
    // A moment still to come means the clock moved.
    assert_eq!(reloaded.remote_ref_at("k", 999), None);
}

#[test]
fn a_disabled_cache_keeps_nothing() {
    let mut cache = RefCache::disabled();
    cache.store_compare_at("k", "behind", 1);
    cache.store_remote_ref_at("k", "sha", 1);
    assert!(cache.persist().is_none());
    assert_eq!(cache.compare("k"), None);
}

#[test]
fn answers_on_disk_are_kept_beside_new_ones() {
    let mut first = RefCache::load(CacheFile::Missing, Mode::Use, 100);
    first.store_compare_at("old", "behind", 1);
    let mut second = RefCache::load(written(first.persist()), Mode::Use, 100);
    second.store_compare_at("new", "ahead", 2);
    let third = RefCache::load(written(second.persist()), Mode::Use, 100);
    assert_eq!(third.compare("old").as_deref(), Some("behind"));
    assert_eq!(third.compare("new").as_deref(), Some("ahead"));
}

#[test]
fn the_file_is_bounded() {
    assert!(readable_size(MAX_BYTES));
    assert!(!readable_size(MAX_BYTES + 1));
    assert_eq!(path("/dir").base, "/dir");
}
