//! The keyboard-driven store: what a key does, and what the screen shows.

use crate::catalog::{self, Catalog, CatalogItem, Listing, Platform};
use crate::text;
use crate::textmap::TextMap;
use vstd::prelude::*;
use vstd::string::*;

verus! {

/// What the store remembers between keys.
#[derive(Debug)]
pub struct StoreState {
    pub query: String,
    pub selected: usize,
    pub search_mode: bool,
    pub confirm: bool,
    pub message: String,
}

/// What the state says.
pub struct Screen {
    pub query: Seq<char>,
    pub selected: usize,
    pub search_mode: bool,
    pub confirm: bool,
    pub message: Seq<char>,
}

impl View for StoreState {
    type V = Screen;

    open spec fn view(&self) -> Screen {
        Screen {
            query: self.query@,
            selected: self.selected,
            search_mode: self.search_mode,
            confirm: self.confirm,
            message: self.message@,
        }
    }
}

#[derive(Debug, Clone, Copy, PartialEq, Eq, Structural)]
pub enum Key {
    Char { c: char, control: bool },
    Esc,
    Enter,
    Backspace,
    Up,
    Down,
    PageUp,
    PageDown,
    Other,
}

/// What a key asks the terminal side to do.
#[derive(Debug, Clone, Copy, PartialEq, Eq, Structural)]
pub enum StoreAction {
    Stay,
    Quit,
    /// Load the marketplace again.
    Refresh,
    /// Install the result at this position.
    Install(usize),
}

pub open spec fn listed(results: Seq<&CatalogItem>) -> Seq<Listing> {
    Seq::new(results.len(), |i: int| results[i]@)
}

pub open spec fn opening_screen() -> Screen {
    Screen { query: seq![], selected: 0, search_mode: false, confirm: false, message: seq![] }
}

/// The screen once an install ended.
pub open spec fn after_install(screen: Screen, plugin_id: Seq<char>, result: Result<(), String>) -> Screen {
    Screen {
        message: match result {
            Ok(_) => "Installed "@ + plugin_id,
            Err(e) => "Install failed: "@ + e@,
        },
        ..screen
    }
}

/// The screen once the marketplace was loaded again.
pub open spec fn after_refresh(screen: Screen, error: Option<Seq<char>>) -> Screen {
    Screen {
        message: match error {
            None => "Marketplace refreshed"@,
            Some(e) => "Refresh failed: "@ + e,
        },
        ..screen
    }
}

/// The selection stays on a result where there is one.
pub open spec fn settled(screen: Screen, results: nat) -> Screen {
    Screen {
        selected: if results == 0 {
            0
        } else if screen.selected >= results {
            (results - 1) as usize
        } else {
            screen.selected
        },
        ..screen
    }
}

/// The characters that are never typed into a query.
pub open spec fn is_control(c: char) -> bool {
    c < ' ' || ('\u{7f}' <= c <= '\u{9f}')
}

/// What is said about an item that cannot be installed here.
pub open spec fn refusal(item: Listing, version: Option<Seq<char>>, platform: Platform) -> Option<
    Seq<char>,
> {
    if !catalog::supports(item, platform) {
        Some(item.plugin_id + " is not available on "@ + catalog::platform_name(platform))
    } else if !catalog::compatible(version, item.min_herdr_version) {
        Some(item.plugin_id + " requires Herdr "@ + item.min_herdr_version + " or newer"@)
    } else {
        None
    }
}

/// A key while a confirmation is asked for.
pub open spec fn confirmed(
    screen: Screen,
    key: Key,
    results: Seq<Listing>,
    version: Option<Seq<char>>,
    platform: Platform,
) -> (Screen, StoreAction) {
    let closed = Screen { confirm: false, ..screen };
    match key {
        Key::Char { c, .. } => if c == 'y' || c == 'Y' {
            if screen.selected >= results.len() {
                (closed, StoreAction::Stay)
            } else {
                match refusal(results[screen.selected as int], version, platform) {
                    Some(message) => (Screen { message, ..closed }, StoreAction::Stay),
                    None => (closed, StoreAction::Install(screen.selected)),
                }
            }
        } else if c == 'n' || c == 'N' {
            (closed, StoreAction::Stay)
        } else {
            (screen, StoreAction::Stay)
        },
        Key::Esc => (closed, StoreAction::Stay),
        _ => (screen, StoreAction::Stay),
    }
}

/// A key while a query is typed.
pub open spec fn typed(screen: Screen, key: Key) -> Screen {
    match key {
        Key::Esc | Key::Enter => Screen { search_mode: false, ..screen },
        Key::Backspace => Screen {
            query: if screen.query.len() > 0 {
                screen.query.drop_last()
            } else {
                screen.query
            },
            selected: 0,
            ..screen
        },
        Key::Char { c, control } => if !control && !is_control(c) && text::utf8_len(screen.query)
            < 200 {
            Screen { query: screen.query.push(c), selected: 0, ..screen }
        } else {
            screen
        },
        _ => screen,
    }
}

pub open spec fn moved_up(screen: Screen, by: nat) -> Screen {
    Screen {
        selected: if screen.selected >= by {
            (screen.selected - by) as usize
        } else {
            0
        },
        ..screen
    }
}

pub open spec fn asked_to_install(screen: Screen, results: nat) -> Screen {
    if results > 0 {
        Screen { confirm: true, message: seq![], ..screen }
    } else {
        screen
    }
}

/// A key while browsing.
pub open spec fn browsed(screen: Screen, key: Key, results: nat) -> (Screen, StoreAction) {
    let stay = StoreAction::Stay;
    match key {
        Key::Esc => (screen, StoreAction::Quit),
        Key::Enter => (asked_to_install(screen, results), stay),
        Key::Up => (moved_up(screen, 1), stay),
        Key::PageUp => (moved_up(screen, 10), stay),
        Key::Down => (moved_down(screen, results), stay),
        Key::PageDown => (paged_down(screen, results), stay),
        Key::Char { c, .. } => if c == 'q' {
            (screen, StoreAction::Quit)
        } else if c == '/' {
            (Screen { search_mode: true, ..screen }, stay)
        } else if c == 'c' {
            (Screen { query: seq![], selected: 0, ..screen }, stay)
        } else if c == 'k' {
            (moved_up(screen, 1), stay)
        } else if c == 'j' {
            (moved_down(screen, results), stay)
        } else if c == 'i' {
            (asked_to_install(screen, results), stay)
        } else if c == 'r' {
            (screen, StoreAction::Refresh)
        } else {
            (screen, stay)
        },
        _ => (screen, stay),
    }
}

pub open spec fn moved_down(screen: Screen, results: nat) -> Screen {
    if screen.selected + 1 < results {
        Screen { selected: (screen.selected + 1) as usize, ..screen }
    } else {
        screen
    }
}

pub open spec fn paged_down(screen: Screen, results: nat) -> Screen {
    Screen {
        selected: if screen.selected + 10 < results {
            (screen.selected + 10) as usize
        } else if results > 0 {
            (results - 1) as usize
        } else {
            0
        },
        ..screen
    }
}

/// What a key does.
pub open spec fn pressed(
    screen: Screen,
    key: Key,
    results: Seq<Listing>,
    version: Option<Seq<char>>,
    platform: Platform,
) -> (Screen, StoreAction) {
    if screen.confirm {
        confirmed(screen, key, results, version, platform)
    } else if screen.search_mode {
        (typed(screen, key), StoreAction::Stay)
    } else {
        browsed(screen, key, results.len())
    }
}

impl StoreState {
    pub fn new() -> (r: StoreState)
        ensures
            r@ == opening_screen(),
    {
        let r = StoreState {
            query: String::new(),
            selected: 0,
            search_mode: false,
            confirm: false,
            message: String::new(),
        };
        assert(r.query@ =~= seq![]);
        assert(r.message@ =~= seq![]);
        r
    }

    /// Keeps the selection on a result.
    pub fn settle(self, results: usize) -> (r: StoreState)
        ensures
            r@ == settled(self@, results as nat),
    {
        let mut state = self;
        if results == 0 {
            state.selected = 0;
        } else if state.selected >= results {
            state.selected = results - 1;
        }
        state
    }

    fn confirm_key(
        self,
        key: Key,
        results: &Vec<&CatalogItem>,
        version: Option<&str>,
        platform: Platform,
    ) -> (r: (StoreState, StoreAction))
        ensures
            (r.0@, r.1) == confirmed(
                self@,
                key,
                listed(results@),
                text::opt_str(version),
                platform,
            ),
    {
        let mut state = self;
        match key {
            Key::Char { c, .. } => {
                if c == 'y' || c == 'Y' {
                    state.confirm = false;
                    if state.selected >= results.len() {
                        return (state, StoreAction::Stay);
                    }
                    let item = results[state.selected];
                    assert(listed(results@)[state.selected as int] == item@);
                    if !catalog::supports_platform(item, platform) {
                        state.message = item.plugin_id.clone().concat(
                            " is not available on ",
                        ).concat(platform.name());
                        return (state, StoreAction::Stay);
                    }
                    if !catalog::compatible_with(version, item.min_herdr_version.as_str()) {
                        state.message = item.plugin_id.clone().concat(
                            " requires Herdr ",
                        ).concat(item.min_herdr_version.as_str()).concat(" or newer");
                        return (state, StoreAction::Stay);
                    }
                    let chosen = state.selected;
                    (state, StoreAction::Install(chosen))
                } else if c == 'n' || c == 'N' {
                    state.confirm = false;
                    (state, StoreAction::Stay)
                } else {
                    (state, StoreAction::Stay)
                }
            },
            Key::Esc => {
                state.confirm = false;
                (state, StoreAction::Stay)
            },
            _ => (state, StoreAction::Stay),
        }
    }

    fn search_key(self, key: Key) -> (r: StoreState)
        ensures
            r@ == typed(self@, key),
    {
        let mut state = self;
        match key {
            Key::Esc | Key::Enter => {
                state.search_mode = false;
            },
            Key::Backspace => {
                let count = state.query.as_str().unicode_len();
                if count > 0 {
                    let shorter = state.query.as_str().substring_char(0, count - 1).to_string();
                    assert(shorter@ =~= state.query@.drop_last());
                    state.query = shorter;
                }
                state.selected = 0;
            },
            Key::Char { c, control } => {
                let printable = !(c < ' ' || ('\u{7f}' <= c && c <= '\u{9f}'));
                if !control && printable && text::byte_len(state.query.as_str()) < 200 {
                    state.query.push(c);
                    state.selected = 0;
                }
            },
            _ => {},
        }
        state
    }

    fn up(self, by: usize) -> (r: StoreState)
        ensures
            r@ == moved_up(self@, by as nat),
    {
        let mut state = self;
        state.selected = if state.selected >= by {
            state.selected - by
        } else {
            0
        };
        state
    }

    fn down(self, results: usize) -> (r: StoreState)
        ensures
            r@ == moved_down(self@, results as nat),
    {
        let mut state = self;
        if results > 0 && state.selected < results - 1 {
            state.selected = state.selected + 1;
        }
        state
    }

    fn page_down(self, results: usize) -> (r: StoreState)
        ensures
            r@ == paged_down(self@, results as nat),
    {
        let mut state = self;
        state.selected = if results > 10 && state.selected < results - 10 {
            state.selected + 10
        } else if results > 0 {
            results - 1
        } else {
            0
        };
        state
    }

    fn ask(self, results: usize) -> (r: StoreState)
        ensures
            r@ == asked_to_install(self@, results as nat),
    {
        let mut state = self;
        if results > 0 {
            state.confirm = true;
            state.message = String::new();
            assert(state.message@ =~= seq![]);
        }
        state
    }

    fn browse_key(self, key: Key, results: usize) -> (r: (StoreState, StoreAction))
        ensures
            (r.0@, r.1) == browsed(self@, key, results as nat),
    {
        match key {
            Key::Esc => (self, StoreAction::Quit),
            Key::Enter => (self.ask(results), StoreAction::Stay),
            Key::Up => (self.up(1), StoreAction::Stay),
            Key::PageUp => (self.up(10), StoreAction::Stay),
            Key::Down => (self.down(results), StoreAction::Stay),
            Key::PageDown => (self.page_down(results), StoreAction::Stay),
            Key::Char { c, .. } => {
                if c == 'q' {
                    (self, StoreAction::Quit)
                } else if c == '/' {
                    let mut state = self;
                    state.search_mode = true;
                    (state, StoreAction::Stay)
                } else if c == 'c' {
                    let mut state = self;
                    state.query = String::new();
                    state.selected = 0;
                    assert(state.query@ =~= seq![]);
                    (state, StoreAction::Stay)
                } else if c == 'k' {
                    (self.up(1), StoreAction::Stay)
                } else if c == 'j' {
                    (self.down(results), StoreAction::Stay)
                } else if c == 'i' {
                    (self.ask(results), StoreAction::Stay)
                } else if c == 'r' {
                    (self, StoreAction::Refresh)
                } else {
                    (self, StoreAction::Stay)
                }
            },
            _ => (self, StoreAction::Stay),
        }
    }

    /// Takes a key.
    pub fn press(
        self,
        key: Key,
        results: &Vec<&CatalogItem>,
        version: Option<&str>,
        platform: Platform,
    ) -> (r: (StoreState, StoreAction))
        ensures
            (r.0@, r.1) == pressed(
                self@,
                key,
                listed(results@),
                text::opt_str(version),
                platform,
            ),
    {
        if self.confirm {
            self.confirm_key(key, results, version, platform)
        } else if self.search_mode {
            (self.search_key(key), StoreAction::Stay)
        } else {
            self.browse_key(key, results.len())
        }
    }

    /// Takes what an install came to.
    pub fn installed(self, plugin_id: &str, result: &Result<(), String>) -> (r: StoreState)
        ensures
            r@ == after_install(self@, plugin_id@, *result),
    {
        let mut state = self;
        state.message = match result {
            Ok(_) => "Installed ".to_string().concat(plugin_id),
            Err(e) => "Install failed: ".to_string().concat(e.as_str()),
        };
        state
    }

    /// Takes what a refresh came to.
    pub fn refreshed(self, error: Option<&str>) -> (r: StoreState)
        ensures
            r@ == after_refresh(self@, text::opt_str(error)),
    {
        let mut state = self;
        state.message = match error {
            None => "Marketplace refreshed".to_string(),
            Some(e) => "Refresh failed: ".to_string().concat(e),
        };
        state
    }
}

/// Nothing is installed without a yes to a question about that very item, and
/// never what the platform or the Herdr version does not support.
pub proof fn law_install_takes_a_yes(
    screen: Screen,
    key: Key,
    results: Seq<Listing>,
    version: Option<Seq<char>>,
    platform: Platform,
)
    ensures
        pressed(screen, key, results, version, platform).1 matches StoreAction::Install(i) ==> {
            &&& screen.confirm
            &&& i == screen.selected < results.len()
            &&& key matches Key::Char { c, .. } && (c == 'y' || c == 'Y')
            &&& catalog::supports(results[i as int], platform)
            &&& catalog::compatible(version, results[i as int].min_herdr_version)
        },
{
}

/// The question about an item only comes up while there is one.
pub proof fn law_question_needs_an_item(
    screen: Screen,
    key: Key,
    results: Seq<Listing>,
    version: Option<Seq<char>>,
    platform: Platform,
)
    ensures
        !screen.confirm && pressed(screen, key, results, version, platform).0.confirm
            ==> results.len() > 0,
{
}

/// Whatever is pressed, the selection stays on a result where there is one.
pub proof fn law_selection_stays_inside(
    screen: Screen,
    key: Key,
    results: Seq<Listing>,
    version: Option<Seq<char>>,
    platform: Platform,
)
    requires
        results.len() <= usize::MAX,
        screen.selected < results.len() || screen.selected == 0,
    ensures
        ({
            let after = pressed(screen, key, results, version, platform).0;
            after.selected < results.len() || after.selected == 0
        }),
        settled(screen, results.len()).selected < results.len() || settled(
            screen,
            results.len(),
        ).selected == 0,
{
}

/// The query only changes while it is typed, or by clearing it.
pub proof fn law_query_only_changes_while_typed(
    screen: Screen,
    key: Key,
    results: Seq<Listing>,
    version: Option<Seq<char>>,
    platform: Platform,
)
    ensures
        ({
            let after = pressed(screen, key, results, version, platform).0;
            after.query != screen.query ==> (screen.search_mode && !screen.confirm) || (
            after.query.len() == 0 && !screen.confirm)
        }),
{
}

// ---------------------------------------------------------------------------
// The screen

/// A line of the screen and how it is shown.
#[derive(Debug)]
pub struct StoreLine {
    pub content: String,
    pub bold: bool,
    pub reverse: bool,
}

pub struct Shown {
    pub content: Seq<char>,
    pub bold: bool,
    pub reverse: bool,
}

impl View for StoreLine {
    type V = Shown;

    open spec fn view(&self) -> Shown {
        Shown { content: self.content@, bold: self.bold, reverse: self.reverse }
    }
}

pub open spec fn shown(lines: Seq<StoreLine>) -> Seq<Shown> {
    Seq::new(lines.len(), |i: int| lines[i]@)
}

/// A text in one line that fills the width but for its last column.
pub open spec fn fitted(value: Seq<char>, width: nat) -> Seq<char> {
    let room = (width - 1) as nat;
    text::padded_right(text::one_line_text(value, room), room)
}

/// Narrow and low terminals are drawn as if they were this large at least.
pub open spec fn drawn_width(width: u16) -> nat {
    if width < 40 {
        40
    } else {
        width as nat
    }
}

pub open spec fn list_rows(height: u16) -> nat {
    if height < 14 {
        4
    } else {
        (height - 10) as nat
    }
}

/// The result in the first row of the list: the selection is always visible.
pub open spec fn first_row(selected: nat, rows: nat) -> nat {
    if selected >= rows {
        (selected + 1 - rows) as nat
    } else {
        0
    }
}

/// The mark beside an item.
pub open spec fn mark(
    item: Listing,
    installed: Map<Seq<char>, Seq<char>>,
    version: Option<Seq<char>>,
    platform: Platform,
) -> Seq<char> {
    if !catalog::supports(item, platform) {
        "unsupported"@
    } else if !catalog::compatible(version, item.min_herdr_version) {
        "needs newer Herdr"@
    } else if !installed.contains_key(item.plugin_id) {
        ""@
    } else if installed[item.plugin_id] == "local"@ {
        "linked"@
    } else {
        "installed"@
    }
}

pub open spec fn item_line(item: Listing, mark: Seq<char>) -> Seq<char> {
    text::padded_right(text::one_line_text(item.name, 34), 34) + " "@ + text::padded_left(
        text::decimal(item.stars as nat),
        6,
    ) + " stars  "@ + text::padded_right(mark, 17) + " "@ + item.source
}

/// What the store is looking at.
pub struct Scene {
    pub generated_at: Seq<char>,
    pub stale: bool,
    pub results: Seq<Listing>,
    pub installed: Map<Seq<char>, Seq<char>>,
    pub version: Option<Seq<char>>,
    pub platform: Platform,
}

pub open spec fn head_lines(scene: Scene, screen: Screen, width: nat) -> Seq<Shown> {
    seq![
        Shown { content: fitted("HERDR PLUGIN STORE"@, width), bold: true, reverse: false },
        Shown {
            content: fitted(
                "/ search  arrows navigate  Enter/i install  r refresh  c clear  q close    "@
                    + scene.generated_at + (if scene.stale {
                    "  STALE"@
                } else {
                    ""@
                }),
                width,
            ),
            bold: false,
            reverse: false,
        },
        Shown {
            content: fitted(
                "Search"@ + (if screen.search_mode {
                    " [typing]"@
                } else {
                    ""@
                }) + ": "@ + screen.query,
                width,
            ),
            bold: false,
            reverse: false,
        },
        Shown {
            content: fitted(text::decimal(scene.results.len()) + " plugin(s)"@, width),
            bold: false,
            reverse: false,
        },
    ]
}

pub open spec fn list_line(scene: Scene, selected: nat, index: int, width: nat) -> Shown {
    if index < scene.results.len() {
        let item = scene.results[index];
        Shown {
            content: fitted(
                item_line(item, mark(item, scene.installed, scene.version, scene.platform)),
                width,
            ),
            bold: false,
            reverse: index == selected,
        }
    } else {
        Shown { content: fitted(""@, width), bold: false, reverse: false }
    }
}

pub open spec fn list_lines(scene: Scene, selected: nat, rows: nat, width: nat) -> Seq<Shown> {
    Seq::new(
        rows,
        |row: int| list_line(scene, selected, first_row(selected, rows) + row, width),
    )
}

pub open spec fn detail_lines(scene: Scene, selected: nat, width: nat) -> Seq<Shown> {
    let (a, b, c) = if selected < scene.results.len() {
        let item = scene.results[selected as int];
        (
            item.plugin_id + "  v"@ + item.version + "  requires Herdr "@ + item.min_herdr_version,
            match item.description {
                Some(d) => d,
                None => "No description"@,
            },
            "Source: "@ + item.source + " @ "@ + text::prefix(item.head_commit, 12),
        )
    } else {
        ("No matching plugins"@, ""@, ""@)
    };
    seq![
        Shown { content: fitted(a, width), bold: true, reverse: false },
        Shown { content: fitted(b, width), bold: false, reverse: false },
        Shown { content: fitted(c, width), bold: false, reverse: false },
    ]
}

pub open spec fn footer(scene: Scene, screen: Screen) -> Seq<char> {
    if screen.confirm {
        if screen.selected < scene.results.len() {
            "Install "@ + scene.results[screen.selected as int].plugin_id
                + " at the indexed commit? y/N"@
        } else {
            ""@
        }
    } else {
        screen.message
    }
}

/// The whole screen, line by line.
pub open spec fn screen_lines(scene: Scene, screen: Screen, width: u16, height: u16) -> Seq<Shown> {
    let w = drawn_width(width);
    let now = settled(screen, scene.results.len());
    head_lines(scene, now, w) + list_lines(scene, now.selected as nat, list_rows(height), w)
        + detail_lines(scene, now.selected as nat, w) + seq![
        Shown { content: fitted(footer(scene, now), w), bold: true, reverse: false },
    ]
}

fn fit(value: &str, width: usize) -> (r: String)
    requires
        width > 0,
    ensures
        r@ == fitted(value@, width as nat),
{
    let line = text::one_line(value, width - 1);
    text::pad_right(line.as_str(), width - 1)
}

fn push_line(out: &mut Vec<StoreLine>, value: &str, width: usize, bold: bool, reverse: bool)
    requires
        width > 0,
    ensures
        shown(final(out)@) == shown(old(out)@).push(
            (Shown { content: fitted(value@, width as nat), bold, reverse }),
        ),
{
    let ghost before = out@;
    let line = StoreLine { content: fit(value, width), bold, reverse };
    let ghost l = line@;
    out.push(line);
    assert(shown(out@) =~= shown(before).push(l));
}

fn mark_of(
    item: &CatalogItem,
    installed: &TextMap<String>,
    version: Option<&str>,
    platform: Platform,
) -> (r: &'static str)
    ensures
        r@ == mark(item@, catalog::kind_map(installed@), text::opt_str(version), platform),
{
    if !catalog::supports_platform(item, platform) {
        "unsupported"
    } else if !catalog::compatible_with(version, item.min_herdr_version.as_str()) {
        "needs newer Herdr"
    } else {
        match installed.get(item.plugin_id.as_str()) {
            None => "",
            Some(kind) => if text::text_eq(kind.as_str(), "local") {
                "linked"
            } else {
                "installed"
            },
        }
    }
}

fn item_row(item: &CatalogItem, mark: &str) -> (r: String)
    ensures
        r@ == item_line(item@, mark@),
{
    text::pad_right(text::one_line(item.name.as_str(), 34).as_str(), 34).concat(" ").concat(
        text::pad_left(text::number_text(item.stars).as_str(), 6).as_str(),
    ).concat(" stars  ").concat(text::pad_right(mark, 17).as_str()).concat(" ").concat(
        item.source.as_str(),
    )
}

/// What the store is looking at.
pub struct StoreView<'a> {
    pub catalog: &'a Catalog,
    pub results: &'a Vec<&'a CatalogItem>,
    pub installed: &'a TextMap<String>,
    pub version: Option<&'a str>,
    pub platform: Platform,
}

impl<'a> StoreView<'a> {
    pub open spec fn scene(&self) -> Scene {
        Scene {
            generated_at: self.catalog.generated_at@,
            stale: self.catalog.stale,
            results: listed(self.results@),
            installed: catalog::kind_map(self.installed@),
            version: text::opt_str(self.version),
            platform: self.platform,
        }
    }

    fn push_head(&self, out: &mut Vec<StoreLine>, state: &StoreState, width: usize)
        requires
            width > 0,
        ensures
            shown(final(out)@) == shown(old(out)@) + head_lines(
                self.scene(),
                state@,
                width as nat,
            ),
    {
        let ghost before = shown(out@);
        push_line(out, "HERDR PLUGIN STORE", width, true, false);
        let stale = if self.catalog.stale {
            "  STALE"
        } else {
            ""
        };
        let help =
            "/ search  arrows navigate  Enter/i install  r refresh  c clear  q close    ".to_string().concat(
            self.catalog.generated_at.as_str(),
        ).concat(stale);
        push_line(out, help.as_str(), width, false, false);
        let typing = if state.search_mode {
            " [typing]"
        } else {
            ""
        };
        let search = "Search".to_string().concat(typing).concat(": ").concat(
            state.query.as_str(),
        );
        push_line(out, search.as_str(), width, false, false);
        let count = text::number_text(self.results.len() as u64).concat(" plugin(s)");
        push_line(out, count.as_str(), width, false, false);
        assert(shown(out@) =~= before + head_lines(self.scene(), state@, width as nat));
    }

    fn push_list(&self, out: &mut Vec<StoreLine>, selected: usize, rows: usize, width: usize)
        requires
            width > 0,
            0 < rows <= u16::MAX,
            selected < self.results@.len() || selected == 0,
        ensures
            shown(final(out)@) == shown(old(out)@) + list_lines(
                self.scene(),
                selected as nat,
                rows as nat,
                width as nat,
            ),
    {
        let ghost before = shown(out@);
        let ghost lines = list_lines(self.scene(), selected as nat, rows as nat, width as nat);
        let first: usize = if selected >= rows {
            selected - (rows - 1)
        } else {
            0
        };
        let mut row: usize = 0;
        assert(shown(out@) =~= before + lines.take(0));
        while row < rows
            invariant
                row <= rows,
                width > 0,
                0 < rows <= u16::MAX,
                selected < self.results@.len() || selected == 0,
                first == first_row(selected as nat, rows as nat),
                lines == list_lines(self.scene(), selected as nat, rows as nat, width as nat),
                shown(out@) == before + lines.take(row as int),
            decreases rows - row,
        {
            let index: usize = first + row;
            if index < self.results.len() {
                let item = self.results[index];
                assert(listed(self.results@)[index as int] == item@);
                let line = item_row(
                    item,
                    mark_of(item, self.installed, self.version, self.platform),
                );
                push_line(out, line.as_str(), width, false, index == selected);
            } else {
                push_line(out, "", width, false, false);
            }
            assert(lines.take(row + 1) =~= lines.take(row as int).push(lines[row as int]));
            assert(shown(out@) =~= before + lines.take(row + 1));
            row = row + 1;
        }
        assert(lines.take(row as int) =~= lines);
    }

    fn push_detail(&self, out: &mut Vec<StoreLine>, selected: usize, width: usize)
        requires
            width > 0,
        ensures
            shown(final(out)@) == shown(old(out)@) + detail_lines(
                self.scene(),
                selected as nat,
                width as nat,
            ),
    {
        let ghost before = shown(out@);
        if selected < self.results.len() {
            let item = self.results[selected];
            assert(listed(self.results@)[selected as int] == item@);
            let title = item.plugin_id.clone().concat("  v").concat(
                item.version.as_str(),
            ).concat("  requires Herdr ").concat(item.min_herdr_version.as_str());
            push_line(out, title.as_str(), width, true, false);
            let description = match &item.description {
                Some(d) => d.as_str(),
                None => "No description",
            };
            push_line(out, description, width, false, false);
            let source = "Source: ".to_string().concat(item.source.as_str()).concat(
                " @ ",
            ).concat(text::prefix_of(item.head_commit.as_str(), 12));
            push_line(out, source.as_str(), width, false, false);
        } else {
            push_line(out, "No matching plugins", width, true, false);
            push_line(out, "", width, false, false);
            push_line(out, "", width, false, false);
        }
        assert(shown(out@) =~= before + detail_lines(
            self.scene(),
            selected as nat,
            width as nat,
        ));
    }

    /// Renders the screen, line by line. The selection is kept on a result.
    pub fn render(&self, state: &StoreState, width: u16, height: u16) -> (r: Vec<StoreLine>)
        ensures
            shown(r@) == screen_lines(self.scene(), state@, width, height),
    {
        let w: usize = if width < 40 {
            40
        } else {
            width as usize
        };
        let rows: usize = if height < 14 {
            4
        } else {
            height as usize - 10
        };
        let selected: usize = if self.results.len() == 0 {
            0
        } else if state.selected >= self.results.len() {
            self.results.len() - 1
        } else {
            state.selected
        };
        let ghost scene = self.scene();
        let ghost now = settled(state@, scene.results.len());
        let mut out: Vec<StoreLine> = Vec::new();
        self.push_head(&mut out, state, w);
        assert(head_lines(scene, state@, w as nat) == head_lines(scene, now, w as nat));
        self.push_list(&mut out, selected, rows, w);
        self.push_detail(&mut out, selected, w);
        let last = if state.confirm {
            if selected < self.results.len() {
                let item = self.results[selected];
                assert(listed(self.results@)[selected as int] == item@);
                "Install ".to_string().concat(item.plugin_id.as_str()).concat(
                    " at the indexed commit? y/N",
                )
            } else {
                "".to_string()
            }
        } else {
            state.message.clone()
        };
        assert(last@ == footer(scene, now));
        push_line(&mut out, last.as_str(), w, true, false);
        assert(shown(out@) =~= screen_lines(scene, state@, width, height));
        out
    }
}

/// What is printed while an item is installed.
pub fn install_notice(item: &CatalogItem) -> (r: String)
    ensures
        r@ == "Installing "@ + item.plugin_id@ + " from "@ + item.source@ + " at "@ + text::prefix(
            item.head_commit@,
            12,
        ),
{
    "Installing ".to_string().concat(item.plugin_id.as_str()).concat(" from ").concat(
        item.source.as_str(),
    ).concat(" at ").concat(text::prefix_of(item.head_commit.as_str(), 12))
}

/// The screen always has the same number of lines, each as wide as the screen
/// but for the last column, and the selected result is among those listed.
pub proof fn law_screen_shape(scene: Scene, screen: Screen, width: u16, height: u16)
    requires
        scene.results.len() <= usize::MAX,
    ensures
        screen_lines(scene, screen, width, height).len() == list_rows(height) + 8,
        forall|i: int|
            0 <= i < screen_lines(scene, screen, width, height).len() ==> (
            #[trigger] screen_lines(scene, screen, width, height)[i]).content.len() == drawn_width(
                width,
            ) - 1,
        ({
            let selected = settled(screen, scene.results.len()).selected;
            let rows = list_rows(height);
            first_row(selected as nat, rows) <= selected < first_row(selected as nat, rows) + rows
        }),
{
    let lines = screen_lines(scene, screen, width, height);
    let w = drawn_width(width);
    assert forall|i: int| 0 <= i < lines.len() implies (#[trigger] lines[i]).content.len() == w
        - 1 by {
        let now = settled(screen, scene.results.len());
        let head = head_lines(scene, now, w);
        let list = list_lines(scene, now.selected as nat, list_rows(height), w);
        let detail = detail_lines(scene, now.selected as nat, w);
        if i < head.len() {
            assert(lines[i] == head[i]);
            lemma_all_fitted(w);
        } else if i < head.len() + list.len() {
            assert(lines[i] == list[i - head.len()]);
            lemma_all_fitted(w);
        } else if i < head.len() + list.len() + detail.len() {
            assert(lines[i] == detail[i - head.len() - list.len()]);
            lemma_all_fitted(w);
        } else {
            lemma_all_fitted(w);
        }
    }
}

proof fn lemma_fitted(value: Seq<char>, width: nat)
    requires
        width > 0,
    ensures
        fitted(value, width).len() == width - 1,
{
    reveal_strlit("…");
    assert("…"@.len() == 1);
}

proof fn lemma_all_fitted(width: nat)
    requires
        width > 0,
    ensures
        forall|value: Seq<char>| (#[trigger] fitted(value, width)).len() == width - 1,
{
    assert forall|value: Seq<char>| (#[trigger] fitted(value, width)).len() == width - 1 by {
        lemma_fitted(value, width);
    }
}

// ---------------------------------------------------------------------------
// What keys do and what is shown

/// While browsing, each key does what the help line says: moving goes by one or
/// by ten and stays on the results, `/` begins a search, `c` clears it, Enter
/// and `i` ask before installing, `r` refreshes, and `q` and Esc leave.
pub proof fn law_browsing_keys(screen: Screen, results: nat, control: bool)
    requires
        results <= usize::MAX,
        screen.selected < results || screen.selected == 0,
    ensures
        ({
            let after = |c: char| browsed(screen, Key::Char { c, control }, results);
            let moved = |key: Key| browsed(screen, key, results).0.selected;
            &&& after('q').1 == StoreAction::Quit
            &&& browsed(screen, Key::Esc, results).1 == StoreAction::Quit
            &&& after('r').1 == StoreAction::Refresh
            &&& after('/').0.search_mode && after('/').1 == StoreAction::Stay
            &&& after('c').0.query.len() == 0 && after('c').0.selected == 0
            &&& after('i').0.confirm == (results > 0 || screen.confirm)
            &&& browsed(screen, Key::Enter, results) == after('i')
            &&& after('j') == browsed(screen, Key::Down, results)
            &&& after('k') == browsed(screen, Key::Up, results)
            &&& screen.selected + 1 < results ==> moved(Key::Down) == screen.selected + 1
            &&& screen.selected + 1 >= results ==> moved(Key::Down) == screen.selected
            &&& screen.selected > 0 ==> moved(Key::Up) == screen.selected - 1
            &&& screen.selected == 0 ==> moved(Key::Up) == 0
            &&& screen.selected + 10 < results ==> moved(Key::PageDown) == screen.selected + 10
            &&& screen.selected >= 10 ==> moved(Key::PageUp) == screen.selected - 10
            &&& browsed(screen, Key::Down, results).1 == StoreAction::Stay
            &&& browsed(screen, Key::Up, results).1 == StoreAction::Stay
            &&& browsed(screen, Key::Down, results).0.query == screen.query
        }),
{
}

/// While a query is typed, a character is appended, the last one can be taken
/// back, and Enter or Esc ends the typing and keeps the query.
pub proof fn law_typing_keys(screen: Screen, c: char)
    ensures
        !is_control(c) && text::utf8_len(screen.query) < 200 ==> typed(
            screen,
            Key::Char { c, control: false },
        ).query == screen.query.push(c),
        typed(screen, Key::Char { c, control: true }) == screen,
        is_control(c) ==> typed(screen, Key::Char { c, control: false }) == screen,
        screen.query.len() > 0 ==> typed(screen, Key::Backspace).query == screen.query.drop_last(),
        typed(screen, Key::Enter) == (Screen { search_mode: false, ..screen }),
        typed(screen, Key::Esc) == (Screen { search_mode: false, ..screen }),
{
}

/// A question is answered by `y`, which installs the selected result where it
/// can be, or by `n` or Esc, which only close it; any other key leaves it open.
pub proof fn law_answering_keys(
    screen: Screen,
    results: Seq<Listing>,
    version: Option<Seq<char>>,
    platform: Platform,
    c: char,
    control: bool,
)
    requires
        screen.confirm,
        screen.selected < results.len(),
    ensures
        ({
            let item = results[screen.selected as int];
            let after = pressed(screen, Key::Char { c, control }, results, version, platform);
            let fits = catalog::supports(item, platform) && catalog::compatible(
                version,
                item.min_herdr_version,
            );
            &&& c == 'y' || c == 'Y' ==> !after.0.confirm && (after.1 == StoreAction::Install(
                screen.selected,
            ) <==> fits)
            &&& (c == 'y' || c == 'Y') && !fits ==> after.0.message.len() >= item.plugin_id.len()
                && text::begins_with(after.0.message, item.plugin_id)
            &&& c == 'n' || c == 'N' ==> after == (
                Screen { confirm: false, ..screen },
                StoreAction::Stay,
            )
            &&& c != 'y' && c != 'Y' && c != 'n' && c != 'N' ==> after == (screen, StoreAction::Stay)
            &&& pressed(screen, Key::Esc, results, version, platform) == (
                Screen { confirm: false, ..screen },
                StoreAction::Stay,
            )
        }),
{
    let item = results[screen.selected as int];
    if let Some(message) = refusal(item, version, platform) {
        assert(message.subrange(0, item.plugin_id.len() as int) =~= item.plugin_id);
    }
}

/// The mark beside an item tells why it cannot be installed, or that it is
/// there already, linked or installed; an item without a mark can be installed.
pub proof fn law_mark_tells_the_state(
    item: Listing,
    installed: Map<Seq<char>, Seq<char>>,
    version: Option<Seq<char>>,
    platform: Platform,
)
    ensures
        ({
            let shown = mark(item, installed, version, platform);
            let runs = catalog::supports(item, platform);
            let fits = catalog::compatible(version, item.min_herdr_version);
            &&& shown == "unsupported"@ <==> !runs
            &&& shown == "needs newer Herdr"@ <==> runs && !fits
            &&& shown == ""@ <==> runs && fits && !installed.contains_key(item.plugin_id)
            &&& shown == "linked"@ <==> runs && fits && installed.contains_key(item.plugin_id)
                && installed[item.plugin_id] == "local"@
            &&& shown == "installed"@ <==> runs && fits && installed.contains_key(item.plugin_id)
                && installed[item.plugin_id] != "local"@
        }),
{
    reveal_strlit("unsupported");
    reveal_strlit("needs newer Herdr");
    reveal_strlit("");
    reveal_strlit("linked");
    reveal_strlit("installed");
    assert("unsupported"@.len() == 11 && "needs newer Herdr"@.len() == 17 && ""@.len() == 0
        && "linked"@.len() == 6 && "installed"@.len() == 9);
}

/// The selected result, and no other, is set off; each row holds the result of
/// its place; and the details and the question are about the selected one.
pub proof fn law_selected_result_is_set_off(scene: Scene, screen: Screen, width: u16, height: u16, row: int)
    requires
        screen.selected < scene.results.len() <= usize::MAX,
        0 <= row < list_rows(height),
    ensures
        ({
            let lines = screen_lines(scene, screen, width, height);
            let rows = list_rows(height);
            let place = first_row(screen.selected as nat, rows) + row;
            let w = drawn_width(width);
            let item = scene.results[screen.selected as int];
            &&& lines[4 + row].reverse <==> place == screen.selected
            &&& place < scene.results.len() ==> lines[4 + row].content == fitted(
                item_line(
                    scene.results[place],
                    mark(scene.results[place], scene.installed, scene.version, scene.platform),
                ),
                w,
            )
            &&& lines[4 + rows as int].content == fitted(
                item.plugin_id + "  v"@ + item.version + "  requires Herdr "@
                    + item.min_herdr_version,
                w,
            )
            &&& item.description matches Some(d) ==> lines[5 + rows as int].content == fitted(d, w)
            &&& lines[6 + rows as int].content == fitted(
                "Source: "@ + item.source + " @ "@ + text::prefix(item.head_commit, 12),
                w,
            )
            &&& screen.confirm ==> lines[7 + rows as int].content == fitted(
                "Install "@ + item.plugin_id + " at the indexed commit? y/N"@,
                w,
            )
            &&& !screen.confirm ==> lines[7 + rows as int].content == fitted(screen.message, w)
            &&& lines[3].content == fitted(
                text::decimal(scene.results.len()) + " plugin(s)"@,
                w,
            )
        }),
{
}

/// A row begins with the name of its item where that fits, and ends in its
/// source; a stale catalog is called so.
pub proof fn law_row_names_its_item(item: Listing, shown: Seq<char>)
    ensures
        text::finishes_with(item_line(item, shown), " "@ + item.source),
        text::has_text(
            item_line(item, shown),
            text::decimal(item.stars as nat) + " stars  "@ + shown,
        ),
        text::begins_with(item_line(item, shown), text::one_line_text(item.name, 34)),
{
    let line = item_line(item, shown);
    let end = " "@ + item.source;
    assert(line.subrange(line.len() - end.len(), line.len() as int) =~= end);
    let name = text::one_line_text(item.name, 34);
    assert(line.subrange(0, name.len() as int) =~= name);
    let stars = text::decimal(item.stars as nat);
    let head = text::padded_right(name, 34) + " "@;
    let cell = text::padded_left(stars, 6);
    let mid = stars + " stars  "@ + shown;
    let at = head.len() + cell.len() - stars.len();
    assert(line.subrange(at as int, at + mid.len()) =~= mid);
    assert(text::occurs_at(line, mid, at as int));
}

/// What happened is told, and nothing else on the screen moves.
pub proof fn law_outcomes_are_told(screen: Screen, plugin_id: Seq<char>, error: String)
    ensures
        after_install(screen, plugin_id, Ok(())).message == "Installed "@ + plugin_id,
        after_install(screen, plugin_id, Err(error)).message == "Install failed: "@ + error@,
        after_refresh(screen, None).message == "Marketplace refreshed"@,
        after_refresh(screen, Some(error@)).message == "Refresh failed: "@ + error@,
        forall|result: Result<(), String>|
            (#[trigger] after_install(screen, plugin_id, result)).selected == screen.selected
                && after_install(screen, plugin_id, result).query == screen.query && after_install(
                screen,
                plugin_id,
                result,
            ).confirm == screen.confirm && after_install(screen, plugin_id, result).search_mode
                == screen.search_mode,
        forall|e: Option<Seq<char>>|
            (#[trigger] after_refresh(screen, e)).selected == screen.selected && after_refresh(
                screen,
                e,
            ).query == screen.query && after_refresh(screen, e).confirm == screen.confirm
                && after_refresh(screen, e).search_mode == screen.search_mode,
{
}

/// A store opens with nothing searched for, nothing asked and the first result
/// selected.
pub proof fn law_store_opens_empty()
    ensures
        opening_screen().query.len() == 0,
        opening_screen().message.len() == 0,
        opening_screen().selected == 0,
        !opening_screen().search_mode && !opening_screen().confirm,
{
}

/// A query grows no further once it is full, and what changes it selects the
/// first result again.
pub proof fn law_query_is_bounded(screen: Screen, c: char, control: bool)
    ensures
        text::utf8_len(screen.query) >= 200 ==> typed(screen, Key::Char { c, control }) == screen,
        typed(screen, Key::Backspace).selected == 0,
        typed(screen, Key::Char { c, control }).query != screen.query ==> typed(
            screen,
            Key::Char { c, control },
        ).selected == 0,
{
}

/// A narrow terminal is drawn as one of forty columns, every other one as it is.
pub proof fn law_width_is_that_of_the_terminal(width: u16)
    ensures
        width >= 40 ==> drawn_width(width) == width,
        width < 40 ==> drawn_width(width) == 40,
{
}

} // verus!
