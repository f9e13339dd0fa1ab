use herdr_updater::history::{
    event_line, latest_plugins, path, plugin_updated, read, select, undoable, Event, EventKind,
    HistoryFile, HistoryLine, Undo,
};
use herdr_updater::plugins::{Channel, PluginState, Relation};

fn event(kind: EventKind, target: &str, at: u64) -> Event {
    Event {
        unix_seconds: at,
        kind,
        target: target.into(),
        previous: "1".into(),
        current: "2".into(),
        tracking_ref: Some("main".into()),
    }
}

#[test]
fn latest_event_per_plugin_drives_rollback_state() {
    let events = vec![
        Event::new(EventKind::PluginUpdated, "a", "1", "2", Some("main".into())),
        Event::new(EventKind::PluginUpdated, "b", "3", "4", None),
        Event::new(EventKind::PluginRolledBack, "a", "2", "1", Some("main".into())),
    ];
    let latest = latest_plugins(&events);
    assert_eq!(latest.get("a").unwrap().kind, EventKind::PluginRolledBack);
    assert_eq!(latest.get("b").unwrap().kind, EventKind::PluginUpdated);
}

#[test]
fn every_event_but_one_of_core_is_kept() {
    let events = vec![
        event(EventKind::CoreUpdated, "herdr", 1),
        event(EventKind::FleetPluginSynced, "laptop/a", 2),
        event(EventKind::FleetConfigSynced, "laptop/@settings", 2),
        event(EventKind::PluginResumed, "a", 3),
    ];
    let latest = latest_plugins(&events);
    assert_eq!(latest.len(), 3);
    assert!(!latest.contains_key("herdr"));
    assert_eq!(latest.get("laptop/a").unwrap().kind, EventKind::FleetPluginSynced);
    assert_eq!(latest.get("laptop/@settings").unwrap().kind, EventKind::FleetConfigSynced);
    assert_eq!(latest.get("a").unwrap().kind, EventKind::PluginResumed);
    let undone: Vec<String> =
        undoable(&latest, Undo::Rollback, None).into_iter().map(|e| e.target).collect();
    assert_eq!(undone, vec!["a".to_string()]);
}

#[test]
fn undoing_follows_the_last_event() {
    let events = vec![
        event(EventKind::PluginUpdated, "a", 1),
        event(EventKind::PluginRolledBack, "b", 2),
    ];
    let latest = latest_plugins(&events);
    let rollback = undoable(&latest, Undo::Rollback, None);
    assert_eq!(rollback.len(), 1);
    assert_eq!(rollback[0].target, "a");
    assert_eq!(Undo::Rollback.reference(&rollback[0]).as_deref(), Some("1"));
    assert_eq!(Undo::Rollback.kind(), EventKind::PluginRolledBack);
    let resume = undoable(&latest, Undo::Resume, None);
    assert_eq!(resume[0].target, "b");
    assert_eq!(Undo::Resume.reference(&resume[0]).as_deref(), Some("main"));
    assert_eq!(Undo::Resume.kind(), EventKind::PluginResumed);
    assert!(undoable(&latest, Undo::Rollback, Some("b")).is_empty());
}

#[test]
fn the_limit_takes_the_most_recent_entries() {
    let events = vec![
        event(EventKind::PluginUpdated, "a", 10),
        event(EventKind::PluginUpdated, "b", 20),
        event(EventKind::PluginUpdated, "a", 30),
    ];
    let shown = select(&events, Some(2), None, None);
    assert_eq!(shown.iter().map(|e| e.unix_seconds).collect::<Vec<_>>(), vec![20, 30]);
    let since = select(&events, None, Some(20), Some("a"));
    assert_eq!(since.len(), 1);
    assert_eq!(since[0].unix_seconds, 30);
    assert_eq!(select(&events, Some(2), None, Some("a")).len(), 1);
}

#[test]
fn a_corrupt_line_is_an_error_with_its_number() {
    let lines = vec![
        HistoryLine::Read { line: "{}".into(), parsed: Ok(event(EventKind::PluginUpdated, "a", 1)) },
        HistoryLine::Read { line: "  ".into(), parsed: Err("empty".into()) },
        HistoryLine::Read { line: "oops".into(), parsed: Err("bad".into()) },
    ];
    let error = read("state.jsonl", HistoryFile::Lines(lines)).unwrap_err();
    assert!(error.contains("bad"), "{error}");
    assert!(error.contains('3'), "{error}");
    assert!(read("state.jsonl", HistoryFile::Missing).unwrap().is_empty());
    assert!(read("state.jsonl", HistoryFile::Unreadable("denied".into())).is_err());
    let unreadable = vec![HistoryLine::Unreadable("io".into())];
    assert!(read("state.jsonl", HistoryFile::Lines(unreadable)).is_err());
    assert_eq!(path("/dir").components, vec!["state.jsonl"]);
}

#[test]
fn a_rollback_and_a_resume_alternate() {
    let mut events = vec![event(EventKind::PluginUpdated, "a", 1)];
    assert_eq!(undoable(&latest_plugins(&events), Undo::Rollback, None).len(), 1);
    assert!(undoable(&latest_plugins(&events), Undo::Resume, None).is_empty());
    events.push(event(Undo::Rollback.kind(), "a", 2));
    assert!(undoable(&latest_plugins(&events), Undo::Rollback, None).is_empty());
    assert_eq!(undoable(&latest_plugins(&events), Undo::Resume, None).len(), 1);
    events.push(event(Undo::Resume.kind(), "a", 3));
    assert_eq!(undoable(&latest_plugins(&events), Undo::Rollback, None).len(), 1);
    assert!(undoable(&latest_plugins(&events), Undo::Resume, None).is_empty());
}

fn updated_state() -> PluginState {
    PluginState {
        plugin_id: "sample".into(),
        version: None,
        plugin_root: None,
        source_kind: "github".into(),
        owner: Some("diegopzz".into()),
        repo: Some("herdr-sample".into()),
        subdir: None,
        requested_ref: Some("main".into()),
        installed_sha: Some("old".into()),
        remote_sha: Some("new".into()),
        channel: Channel::Branch,
        relation: Relation::Behind,
        update_available: true,
        error: None,
    }
}

#[test]
fn a_rollback_leads_back_and_a_resume_to_the_ref() {
    let update = plugin_updated(&updated_state(), "new", 10);
    assert_eq!(update.kind, EventKind::PluginUpdated);
    assert_eq!(update.previous, "old");
    assert_eq!(Undo::Rollback.reference(&update).as_deref(), Some("old"));
    assert_eq!(Undo::Rollback.commit(&update).as_deref(), Some("old"));
    let back = Undo::Rollback.done(&update, "new", "old", 20);
    assert_eq!(back.kind, EventKind::PluginRolledBack);
    assert_eq!((back.previous.as_str(), back.current.as_str()), ("new", "old"));
    let latest = latest_plugins(&vec![update, back]);
    let resumable = undoable(&latest, Undo::Resume, Some("sample"));
    assert_eq!(resumable.len(), 1);
    assert_eq!(Undo::Resume.reference(&resumable[0]).as_deref(), Some("main"));
    assert_eq!(Undo::Resume.commit(&resumable[0]), None);
    assert_eq!(Undo::Rollback.nothing(), "nothing can be rolled back");
    assert_eq!(Undo::Resume.nothing(), "nothing can be resumed");
}

#[test]
fn an_event_is_shown_in_one_line() {
    assert_eq!(
        event_line(&event(EventKind::PluginResumed, "sample", 0)),
        "1970-01-01T00:00:00Z  plugin_resumed  sample  1 -> 2"
    );
    assert_eq!(EventKind::FleetConfigSynced.name(), "fleet_config_synced");
}

fn line_of(target: &str, at: u64) -> HistoryLine {
    HistoryLine::Read {
        line: "{}".into(),
        parsed: Ok(event(EventKind::PluginUpdated, target, at)),
    }
}

#[test]
fn an_appended_event_is_read_behind_the_others() {
    assert!(read("state.jsonl", HistoryFile::Missing).unwrap().is_empty());
    let first = read("state.jsonl", HistoryFile::Lines(vec![line_of("a", 1)])).unwrap();
    assert_eq!(first.len(), 1);
    let blank = HistoryLine::Read { line: "  ".into(), parsed: Err("empty".into()) };
    let lines = vec![line_of("a", 1), blank, line_of("b", 2)];
    let both = read("state.jsonl", HistoryFile::Lines(lines)).unwrap();
    assert_eq!(both.len(), 2);
    assert_eq!((both[0].target.as_str(), both[0].unix_seconds), ("a", 1));
    assert_eq!((both[1].target.as_str(), both[1].unix_seconds), ("b", 2));
}
