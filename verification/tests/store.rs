use herdr_updater::catalog::{Catalog, CatalogItem, Platform};
use herdr_updater::store::{install_notice, Key, StoreAction, StoreState, StoreView};
use herdr_updater::textmap::TextMap;

fn item(id: &str) -> CatalogItem {
    CatalogItem {
        plugin_id: id.into(),
        name: id.into(),
        version: "1.0.0".into(),
        min_herdr_version: "0.8.2".into(),
        description: Some("something".into()),
        platforms: None,
        source: "o/r".into(),
        repository: "o/r".into(),
        repository_url: "https://github.com/o/r".into(),
        head_commit: "a".repeat(40),
        stars: 5,
        stars_delta_7d: None,
        language: Some("Rust".into()),
        pushed_at: None,
    }
}

fn key(c: char) -> Key {
    Key::Char { c, control: false }
}

fn press(state: StoreState, k: Key, items: &Vec<CatalogItem>) -> (StoreState, StoreAction) {
    let results: Vec<&CatalogItem> = items.iter().collect();
    state.press(k, &results, Some("0.8.2"), Platform::Linux)
}

#[test]
fn installing_takes_enter_and_yes() {
    let items = vec![item("a"), item("b")];
    let (state, action) = press(StoreState::new(), key('j'), &items);
    assert_eq!(action, StoreAction::Stay);
    assert_eq!(state.selected, 1);
    let (state, action) = press(state, key('y'), &items);
    assert_eq!(action, StoreAction::Stay);
    let (state, action) = press(state, Key::Enter, &items);
    assert!(state.confirm);
    assert_eq!(action, StoreAction::Stay);
    let (state, action) = press(state, key('y'), &items);
    assert_eq!(action, StoreAction::Install(1));
    assert!(!state.confirm);
}

#[test]
fn a_question_can_be_declined() {
    let items = vec![item("a")];
    for no in [key('n'), key('N'), Key::Esc] {
        let (state, _) = press(StoreState::new(), key('i'), &items);
        assert!(state.confirm);
        let (state, action) = press(state, no, &items);
        assert!(!state.confirm);
        assert_eq!(action, StoreAction::Stay);
    }
    let (state, _) = press(StoreState::new(), Key::Enter, &Vec::new());
    assert!(!state.confirm, "nothing to ask about");
}

#[test]
fn an_item_for_another_platform_is_refused() {
    let mut other = item("a");
    other.platforms = Some(vec!["windows".into()]);
    let items = vec![other];
    let (state, _) = press(StoreState::new(), Key::Enter, &items);
    let (state, action) = press(state, key('y'), &items);
    assert_eq!(action, StoreAction::Stay);
    assert_eq!(state.message, "a is not available on linux");
    let mut newer = item("b");
    newer.min_herdr_version = "9.0.0".into();
    let items = vec![newer];
    let (state, _) = press(StoreState::new(), Key::Enter, &items);
    let (state, action) = press(state, key('y'), &items);
    assert_eq!(action, StoreAction::Stay);
    assert_eq!(state.message, "b requires Herdr 9.0.0 or newer");
}

#[test]
fn a_query_is_typed_after_a_slash() {
    let items = vec![item("a")];
    let (state, _) = press(StoreState::new(), key('x'), &items);
    assert_eq!(state.query, "");
    let (state, _) = press(state, key('/'), &items);
    let (state, _) = press(state, key('q'), &items);
    let (state, action) = press(state, key('r'), &items);
    assert_eq!(action, StoreAction::Stay);
    assert_eq!(state.query, "qr");
    let (state, _) = press(state, Key::Backspace, &items);
    assert_eq!(state.query, "q");
    let (state, _) = press(state, Key::Esc, &items);
    assert!(!state.search_mode);
    let (state, _) = press(state, key('c'), &items);
    assert_eq!(state.query, "");
}

#[test]
fn keys_quit_refresh_and_move() {
    let items: Vec<CatalogItem> = (0..15).map(|i| item(&format!("p{i:02}"))).collect();
    assert_eq!(press(StoreState::new(), key('q'), &items).1, StoreAction::Quit);
    assert_eq!(press(StoreState::new(), Key::Esc, &items).1, StoreAction::Quit);
    assert_eq!(press(StoreState::new(), key('r'), &items).1, StoreAction::Refresh);
    let (state, _) = press(StoreState::new(), Key::PageDown, &items);
    assert_eq!(state.selected, 10);
    let (state, _) = press(state, Key::PageDown, &items);
    assert_eq!(state.selected, 14);
    let (state, _) = press(state, Key::Down, &items);
    assert_eq!(state.selected, 14);
    let (state, _) = press(state, Key::PageUp, &items);
    assert_eq!(state.selected, 4);
    let (state, _) = press(state, Key::Up, &items);
    assert_eq!(state.selected, 3);
    assert_eq!(state.settle(2).selected, 1);
}

#[test]
fn the_screen_has_its_shape() {
    let catalog = Catalog {
        generated_at: "now".into(),
        items: vec![item("a.plugin"), item("b.plugin")],
        stale: false,
        source: "network",
    };
    let results: Vec<&CatalogItem> = catalog.items.iter().collect();
    let mut installed = TextMap::new();
    installed.insert("a.plugin".to_string(), "github".to_string());
    let view = StoreView {
        catalog: &catalog,
        results: &results,
        installed: &installed,
        version: Some("0.8.2"),
        platform: Platform::Linux,
    };
    let lines = view.render(&StoreState::new(), 80, 24);
    assert!(lines.iter().all(|line| line.content.chars().count() <= 80));
    assert!(lines.iter().any(|line| line.content.contains("a.plugin")));
    assert_eq!(lines.iter().filter(|line| line.reverse).count(), 1);
}

#[test]
fn outcomes_become_messages() {
    let done = StoreState::new().installed("a", &Ok(()));
    assert!(done.message.contains('a'));
    let failed = StoreState::new().installed("a", &Err("boom".into()));
    assert!(failed.message.contains("boom"));
    assert!(StoreState::new().refreshed(Some("offline")).message.contains("offline"));
    assert_eq!(
        install_notice(&item("a")),
        format!("Installing a from o/r at {}", "a".repeat(12))
    );
}
