//! The append-only record of what was changed, and what it allows to undo.

use crate::clock;
use crate::location::Location;
use crate::plugins::PluginState;
use crate::text;
use crate::textmap::TextMap;
use vstd::prelude::*;
use vstd::string::*;

verus! {

#[derive(Debug, Clone, Copy, PartialEq, Eq, Structural)]
pub enum EventKind {
    PluginUpdated,
    PluginRolledBack,
    PluginResumed,
    CoreUpdated,
    FleetConfigSynced,
    FleetPluginSynced,
}

#[derive(Debug)]
pub struct Event {
    pub unix_seconds: u64,
    pub kind: EventKind,
    pub target: String,
    pub previous: String,
    pub current: String,
    pub tracking_ref: Option<String>,
}

/// What an event records.
pub struct Record {
    pub unix_seconds: u64,
    pub kind: EventKind,
    pub target: Seq<char>,
    pub previous: Seq<char>,
    pub current: Seq<char>,
    pub tracking_ref: Option<Seq<char>>,
}

impl View for Event {
    type V = Record;

    open spec fn view(&self) -> Record {
        Record {
            unix_seconds: self.unix_seconds,
            kind: self.kind,
            target: self.target@,
            previous: self.previous@,
            current: self.current@,
            tracking_ref: text::opt_text(self.tracking_ref),
        }
    }
}

impl Clone for Event {
    fn clone(&self) -> (r: Self)
        ensures
            r == *self,
    {
        Event {
            unix_seconds: self.unix_seconds,
            kind: self.kind,
            target: self.target.clone(),
            previous: self.previous.clone(),
            current: self.current.clone(),
            tracking_ref: text::clone_option(&self.tracking_ref),
        }
    }
}

impl Event {
    /// An event that happens now.
    pub fn new(
        kind: EventKind,
        target: &str,
        previous: &str,
        current: &str,
        tracking_ref: Option<String>,
    ) -> (r: Event)
        ensures
            r@ == (Record {
                unix_seconds: r.unix_seconds,
                kind,
                target: target@,
                previous: previous@,
                current: current@,
                tracking_ref: text::opt_text(tracking_ref),
            }),
    {
        let now = clock::now();
        Event {
            unix_seconds: now,
            kind,
            target: target.to_string(),
            previous: previous.to_string(),
            current: current.to_string(),
            tracking_ref,
        }
    }
}

/// What is recorded of a plugin that was updated to a commit: the commit before
/// and the ref that it follows are kept, so that the update can be undone.
pub open spec fn update_record(state: PluginState, commit: Seq<char>, now: u64) -> Record {
    Record {
        unix_seconds: now,
        kind: EventKind::PluginUpdated,
        target: state.plugin_id@,
        previous: text::text_or_empty(text::opt_text(state.installed_sha)),
        current: commit,
        tracking_ref: text::opt_text(state.requested_ref),
    }
}

/// The event of a plugin that was updated.
pub fn plugin_updated(state: &PluginState, commit: &str, now: u64) -> (r: Event)
    ensures
        r@ == update_record(*state, commit@, now),
{
    Event {
        unix_seconds: now,
        kind: EventKind::PluginUpdated,
        target: state.plugin_id.clone(),
        previous: text::str_or_empty(&state.installed_sha).to_string(),
        current: commit.to_string(),
        tracking_ref: text::clone_option(&state.requested_ref),
    }
}

/// Where the record lies.
pub fn path(config_dir: &str) -> (r: Location)
    ensures
        r.is(config_dir@, seq!["state.jsonl"@]),
{
    let r = Location::at(config_dir).join("state.jsonl");
    assert(text::texts(r.components@) =~= seq!["state.jsonl"@]);
    r
}

// ---------------------------------------------------------------------------
// Reading

/// One line of the file, as far as it could be read, with what it parsed to.
#[derive(Debug)]
pub enum HistoryLine {
    Unreadable(String),
    Read { line: String, parsed: Result<Event, String> },
}

/// What opening the file came to.
#[derive(Debug)]
pub enum HistoryFile {
    Missing,
    Unreadable(String),
    Lines(Vec<HistoryLine>),
}

pub open spec fn line_place(path: Seq<char>, index: nat) -> Seq<char> {
    path + ":"@ + text::decimal(index + 1) + ": "@
}

/// What a line contributes: nothing where it is blank, else an event or an
/// error that names the line.
pub open spec fn line_outcome(path: Seq<char>, index: nat, line: HistoryLine) -> Option<
    Result<Event, Seq<char>>,
> {
    match line {
        HistoryLine::Unreadable(e) => Some(Err(line_place(path, index) + e@)),
        HistoryLine::Read { line, parsed } => if text::trimmed(line@).len() == 0 {
            None
        } else {
            Some(
                match parsed {
                    Ok(event) => Ok(event),
                    Err(e) => Err(line_place(path, index) + "invalid JSON: "@ + e@),
                },
            )
        },
    }
}

/// The events of the lines, or the first error among them.
pub open spec fn events_in(path: Seq<char>, lines: Seq<HistoryLine>) -> Result<
    Seq<Event>,
    Seq<char>,
>
    decreases lines.len(),
{
    if lines.len() == 0 {
        Ok(seq![])
    } else {
        match events_in(path, lines.drop_last()) {
            Err(e) => Err(e),
            Ok(events) => match line_outcome(path, (lines.len() - 1) as nat, lines.last()) {
                None => Ok(events),
                Some(Ok(event)) => Ok(events.push(event)),
                Some(Err(e)) => Err(e),
            },
        }
    }
}

proof fn lemma_error_stays(path: Seq<char>, lines: Seq<HistoryLine>, n: int)
    requires
        0 <= n <= lines.len(),
        events_in(path, lines.take(n)) is Err,
    ensures
        events_in(path, lines) == events_in(path, lines.take(n)),
    decreases lines.len() - n,
{
    if n < lines.len() {
        assert(lines.take(n + 1).drop_last() =~= lines.take(n));
        lemma_error_stays(path, lines, n + 1);
    } else {
        assert(lines.take(n) =~= lines);
    }
}

/// What reading the record comes to. A missing file is an empty record.
pub open spec fn record_in(path: Seq<char>, file: HistoryFile) -> Result<Seq<Event>, Seq<char>> {
    match file {
        HistoryFile::Missing => Ok(seq![]),
        HistoryFile::Unreadable(error) => Err("cannot read "@ + path + ": "@ + error@),
        HistoryFile::Lines(lines) => events_in(path, lines@),
    }
}

/// The lines of the file; one that is missing has none.
pub open spec fn lines_of(file: HistoryFile) -> Seq<HistoryLine> {
    match file {
        HistoryFile::Lines(lines) => lines@,
        _ => seq![],
    }
}

/// `after` is the file `before`, which may have been missing, with one line more
/// at its end.
pub open spec fn is_appended(before: HistoryFile, line: HistoryLine, after: HistoryFile) -> bool {
    !(before is Unreadable) && after is Lines && lines_of(after) == lines_of(before).push(line)
}

/// The record only grows: once a line that holds an event is appended, reading
/// gives what it gave before, every event unchanged and in order, followed by
/// that event. A missing file counts as one without lines.
pub proof fn law_appended_event_is_read(
    path: Seq<char>,
    before: HistoryFile,
    line: String,
    event: Event,
    after: HistoryFile,
)
    requires
        record_in(path, before) is Ok,
        text::trimmed(line@).len() > 0,
        is_appended(before, (HistoryLine::Read { line, parsed: Ok(event) }), after),
    ensures
        record_in(path, after) == Ok::<Seq<Event>, Seq<char>>(
            record_in(path, before)->Ok_0.push(event),
        ),
{
    law_line_by_line(
        path,
        lines_of(before),
        HistoryLine::Read { line, parsed: Ok(event) },
        record_in(path, before)->Ok_0,
    );
}

/// One line more adds what that line holds: its event behind the others, nothing
/// where it is blank, whatever a blank line parsed to, and else its error.
pub proof fn law_line_by_line(
    path: Seq<char>,
    lines: Seq<HistoryLine>,
    line: HistoryLine,
    events: Seq<Event>,
)
    requires
        events_in(path, lines) == Ok::<Seq<Event>, Seq<char>>(events),
    ensures
        events_in(path, lines.push(line)) == match line_outcome(path, lines.len(), line) {
            None => Ok::<Seq<Event>, Seq<char>>(events),
            Some(Ok(event)) => Ok(events.push(event)),
            Some(Err(e)) => Err(e),
        },
{
    assert(lines.push(line).drop_last() =~= lines);
}

/// A line that cannot be read or parsed is never passed over: whatever is
/// appended behind it, reading gives its error.
pub proof fn law_corrupt_line_stays_an_error(
    path: Seq<char>,
    lines: Seq<HistoryLine>,
    more: Seq<HistoryLine>,
)
    requires
        events_in(path, lines) is Err,
    ensures
        events_in(path, lines + more) == events_in(path, lines),
{
    assert((lines + more).take(lines.len() as int) =~= lines);
    lemma_error_stays(path, lines + more, lines.len() as int);
}

/// Reads the record: blank lines are skipped, and the first line that cannot
/// be read or parsed is an error that names it. A missing file is an empty
/// record.
pub fn read(path: &str, file: HistoryFile) -> (r: Result<Vec<Event>, String>)
    ensures
        match record_in(path@, file) {
            Ok(events) => r matches Ok(v) && v@ == events,
            Err(error) => r matches Err(e) && e@ == error,
        },
{
    let lines = match file {
        HistoryFile::Missing => {
            let none: Vec<Event> = Vec::new();
            assert(none@ =~= seq![]);
            return Ok(none);
        },
        HistoryFile::Unreadable(e) => {
            return Err("cannot read ".to_string().concat(path).concat(": ").concat(e.as_str()));
        },
        HistoryFile::Lines(lines) => lines,
    };
    let mut events: Vec<Event> = Vec::new();
    let mut i: usize = 0;
    assert(lines@.take(0) =~= seq![]);
    while i < lines.len()
        invariant
            i <= lines.len(),
            file == HistoryFile::Lines(lines),
            events_in(path@, lines@.take(i as int)) == Ok::<Seq<Event>, Seq<char>>(events@),
        decreases lines.len() - i,
    {
        assert(lines@.take(i + 1).drop_last() =~= lines@.take(i as int));
        assert(lines@.take(i + 1).last() == lines@[i as int]);
        let place = path.to_string().concat(":").concat(
            text::number_text(i as u64 + 1).as_str(),
        ).concat(": ");
        match &lines[i] {
            HistoryLine::Unreadable(e) => {
                proof {
                    lemma_error_stays(path@, lines@, i + 1);
                }
                return Err(place.concat(e.as_str()));
            },
            HistoryLine::Read { line, parsed } => {
                if text::trim(line.as_str()).unicode_len() > 0 {
                    match parsed {
                        Ok(event) => {
                            events.push(event.clone());
                        },
                        Err(e) => {
                            proof {
                                lemma_error_stays(path@, lines@, i + 1);
                            }
                            return Err(place.concat("invalid JSON: ").concat(e.as_str()));
                        },
                    }
                }
            },
        }
        i = i + 1;
    }
    assert(lines@.take(i as int) =~= lines@);
    Ok(events)
}

// ---------------------------------------------------------------------------
// What comes last

/// The event counts for its target: every kind does but an update of core.
pub open spec fn is_kept(kind: EventKind) -> bool {
    kind != EventKind::CoreUpdated
}

/// The last event of each target, those of core left out.
pub open spec fn latest_of(events: Seq<Event>) -> Map<Seq<char>, Event>
    decreases events.len(),
{
    if events.len() == 0 {
        Map::empty()
    } else {
        let before = latest_of(events.drop_last());
        let event = events.last();
        if is_kept(event.kind) {
            before.insert(event.target@, event)
        } else {
            before
        }
    }
}

/// What is kept of a target is an event of that target, and no later event that
/// counts has the same target.
pub proof fn law_latest_is_last(events: Seq<Event>, id: Seq<char>)
    ensures
        latest_of(events).contains_key(id) <==> exists|i: int|
            0 <= i < events.len() && is_kept(#[trigger] events[i].kind)
                && events[i].target@ == id,
        latest_of(events).contains_key(id) ==> exists|i: int|
            0 <= i < events.len() && is_kept(#[trigger] events[i].kind) && events[i].target@
                == id && latest_of(events)[id] == events[i] && forall|j: int|
                i < j < events.len() && is_kept(#[trigger] events[j].kind)
                    ==> events[j].target@ != id,
    decreases events.len(),
{
    if events.len() > 0 {
        let rest = events.drop_last();
        let n = events.len() - 1;
        law_latest_is_last(rest, id);
        assert(forall|k: int| 0 <= k < n ==> #[trigger] rest[k] == events[k]);
        if is_kept(events[n].kind) && events[n].target@ == id {
            assert(latest_of(events)[id] == events[n]);
        } else {
            if latest_of(rest).contains_key(id) {
                let i = choose|i: int|
                    0 <= i < rest.len() && is_kept(#[trigger] rest[i].kind) && rest[i].target@
                        == id && latest_of(rest)[id] == rest[i] && forall|j: int|
                        i < j < rest.len() && is_kept(#[trigger] rest[j].kind)
                            ==> rest[j].target@ != id;
                assert(is_kept(events[i].kind));
                assert forall|j: int|
                    i < j < events.len() && is_kept(
                        #[trigger] events[j].kind,
                    ) implies events[j].target@ != id by {
                    if j < n {
                        assert(is_kept(rest[j].kind));
                    }
                }
            } else {
                assert forall|i: int|
                    0 <= i < events.len() && is_kept(
                        #[trigger] events[i].kind,
                    ) implies events[i].target@ != id by {
                    if i < n {
                        assert(is_kept(rest[i].kind));
                    }
                }
            }
        }
    }
}

/// The last event of each target but core, by target: a plugin id, or the host
/// and what was synchronised there.
pub fn latest_plugins(events: &Vec<Event>) -> (r: TextMap<Event>)
    ensures
        r@ == latest_of(events@),
{
    let mut latest: TextMap<Event> = TextMap::new();
    let mut i: usize = 0;
    assert(events@.take(0) =~= seq![]);
    while i < events.len()
        invariant
            i <= events.len(),
            latest@ == latest_of(events@.take(i as int)),
        decreases events.len() - i,
    {
        assert(events@.take(i + 1).drop_last() =~= events@.take(i as int));
        assert(events@.take(i + 1).last() == events@[i as int]);
        if events[i].kind != EventKind::CoreUpdated {
            latest.insert(events[i].target.clone(), events[i].clone());
        }
        i = i + 1;
    }
    assert(events@.take(i as int) =~= events@);
    latest
}

/// What undoing goes over: the last events that can be rolled back, or those
/// that can be resumed.
#[derive(Debug, Clone, Copy, PartialEq, Eq, Structural)]
pub enum Undo {
    /// Reinstall a plugin at the commit before its last update and pin it.
    Rollback,
    /// Return a rolled-back plugin to the ref it followed.
    Resume,
}

pub open spec fn can_undo(undo: Undo, kind: EventKind) -> bool {
    match undo {
        Undo::Rollback => kind == EventKind::PluginUpdated || kind == EventKind::PluginResumed,
        Undo::Resume => kind == EventKind::PluginRolledBack,
    }
}

/// The ref at which an event is undone: the previous commit, or the ref that
/// was followed, where `None` is the default branch.
pub open spec fn undo_ref(undo: Undo, event: Event) -> Option<Seq<char>> {
    match undo {
        Undo::Rollback => Some(event.previous@),
        Undo::Resume => text::opt_text(event.tracking_ref),
    }
}

/// The event that is recorded once the undoing succeeded.
pub open spec fn undone_kind(undo: Undo) -> EventKind {
    match undo {
        Undo::Rollback => EventKind::PluginRolledBack,
        Undo::Resume => EventKind::PluginResumed,
    }
}

/// The commit that a plugin has to be at once the undoing is done: a rollback
/// leads to an exact one.
pub open spec fn undo_commit(undo: Undo, event: Event) -> Option<Seq<char>> {
    match undo {
        Undo::Rollback => Some(event.previous@),
        Undo::Resume => None,
    }
}

/// What is recorded of an event that was undone while `installed` was there and
/// that led to `commit`. The ref that was followed is kept.
pub open spec fn undo_record(
    undo: Undo,
    event: Event,
    installed: Seq<char>,
    commit: Seq<char>,
    now: u64,
) -> Record {
    Record {
        unix_seconds: now,
        kind: undone_kind(undo),
        target: event.target@,
        previous: installed,
        current: commit,
        tracking_ref: text::opt_text(event.tracking_ref),
    }
}

impl Undo {
    pub fn commit(self, event: &Event) -> (r: Option<String>)
        ensures
            text::opt_text(r) == undo_commit(self, *event),
    {
        match self {
            Undo::Rollback => Some(event.previous.clone()),
            Undo::Resume => None,
        }
    }

    /// The event of one that was undone.
    pub fn done(self, event: &Event, installed: &str, commit: &str, now: u64) -> (r: Event)
        ensures
            r@ == undo_record(self, *event, installed@, commit@, now),
    {
        Event {
            unix_seconds: now,
            kind: self.kind(),
            target: event.target.clone(),
            previous: installed.to_string(),
            current: commit.to_string(),
            tracking_ref: text::clone_option(&event.tracking_ref),
        }
    }

    /// What is said where there is nothing to undo.
    pub fn nothing(self) -> (r: &'static str)
        ensures
            r@ == match self {
                Undo::Rollback => "nothing can be rolled back"@,
                Undo::Resume => "nothing can be resumed"@,
            },
    {
        match self {
            Undo::Rollback => "nothing can be rolled back",
            Undo::Resume => "nothing can be resumed",
        }
    }

    pub fn reference(self, event: &Event) -> (r: Option<String>)
        ensures
            text::opt_text(r) == undo_ref(self, *event),
    {
        match self {
            Undo::Rollback => Some(event.previous.clone()),
            Undo::Resume => text::clone_option(&event.tracking_ref),
        }
    }

    pub fn kind(self) -> (r: EventKind)
        ensures
            r == undone_kind(self),
    {
        match self {
            Undo::Rollback => EventKind::PluginRolledBack,
            Undo::Resume => EventKind::PluginResumed,
        }
    }
}

pub open spec fn wanted(only: Option<Seq<char>>, id: Seq<char>) -> bool {
    match only {
        Some(name) => name == id,
        None => true,
    }
}

/// The events among some that can be undone.
pub open spec fn undoable_among(events: Seq<Event>, undo: Undo, only: Option<Seq<char>>) -> Seq<
    Event,
> {
    events.filter(|event: Event| can_undo(undo, event.kind) && wanted(only, event.target@))
}

/// The last events that can be undone, in the order of their plugin ids.
pub fn undoable(latest: &TextMap<Event>, undo: Undo, only: Option<&str>) -> (r: Vec<Event>)
    ensures
        r@ == undoable_among(latest.values(), undo, text::opt_str(only)),
{
    let ghost keep = |event: Event|
        can_undo(undo, event.kind) && wanted(text::opt_str(only), event.target@);
    let ghost all = latest.values();
    let mut out: Vec<Event> = Vec::new();
    let n = latest.len();
    let mut i: usize = 0;
    proof {
        reveal(Seq::filter);
        assert(all.take(0).filter(keep) =~= seq![]);
    }
    while i < n
        invariant
            i <= n,
            n == latest.keys().len(),
            n == all.len(),
            all == latest.values(),
            keep == (|event: Event|
                can_undo(undo, event.kind) && wanted(text::opt_str(only), event.target@)),
            out@ == all.take(i as int).filter(keep),
        decreases n - i,
    {
        let event = latest.value_at(i);
        proof {
            reveal(Seq::filter);
            assert(all.take(i + 1).drop_last() =~= all.take(i as int));
            assert(all.take(i + 1).last() == *event);
        }
        let asked = match only {
            Some(id) => text::text_eq(event.target.as_str(), id),
            None => true,
        };
        let fits = match (undo, event.kind) {
            (Undo::Rollback, EventKind::PluginUpdated) => true,
            (Undo::Rollback, EventKind::PluginResumed) => true,
            (Undo::Resume, EventKind::PluginRolledBack) => true,
            _ => false,
        };
        if asked && fits {
            out.push(event.clone());
        }
        i = i + 1;
    }
    assert(all.take(i as int) =~= all);
    out
}

/// A rollback and a resume undo each other: once the one is recorded for a
/// plugin, the other is what its last event allows, and the same is not done
/// twice in a row.
pub proof fn law_undoing_alternates(events: Seq<Event>, undo: Undo, done: Event)
    requires
        done.kind == undone_kind(undo),
    ensures
        latest_of(events.push(done)).contains_key(done.target@),
        latest_of(events.push(done))[done.target@] == done,
        !can_undo(undo, done.kind),
        undo == Undo::Rollback ==> can_undo(Undo::Resume, done.kind),
        undo == Undo::Resume ==> can_undo(Undo::Rollback, done.kind),
{
    assert(events.push(done).drop_last() =~= events);
}

/// An update that was recorded can be rolled back, to the very commit that was
/// installed before it; and once that is recorded, the plugin can be resumed on
/// the very ref that it followed.
pub proof fn law_rollback_undoes_an_update(
    events: Seq<Event>,
    state: PluginState,
    update: Event,
    back: Event,
    commit: Seq<char>,
    installed: Seq<char>,
    now: u64,
    later: u64,
)
    requires
        state.installed_sha is Some,
        update@ == update_record(state, commit, now),
        back@ == undo_record(Undo::Rollback, update, installed, state.installed_sha->0@, later),
    ensures
        latest_of(events.push(update))[state.plugin_id@] == update,
        can_undo(Undo::Rollback, update.kind),
        undo_ref(Undo::Rollback, update) == Some(state.installed_sha->0@),
        undo_commit(Undo::Rollback, update) == Some(state.installed_sha->0@),
        latest_of(events.push(update).push(back))[state.plugin_id@] == back,
        can_undo(Undo::Resume, back.kind),
        undo_ref(Undo::Resume, back) == text::opt_text(state.requested_ref),
{
    assert(events.push(update).drop_last() =~= events);
    assert(events.push(update).push(back).drop_last() =~= events.push(update));
    assert(update@.previous == update.previous@);
    assert(update@.tracking_ref == text::opt_text(update.tracking_ref));
    assert(back@.tracking_ref == text::opt_text(back.tracking_ref));
}

// ---------------------------------------------------------------------------
// Showing

/// An event is since an instant, and about a target.
pub open spec fn asked_for(since: Option<u64>, only: Option<Seq<char>>) -> spec_fn(Event) -> bool {
    |event: Event|
        (match since {
            Some(from) => event.unix_seconds >= from,
            None => true,
        }) && wanted(only, event.target@)
}

/// The most recent events, as many as the limit says.
pub open spec fn most_recent(events: Seq<Event>, limit: Option<usize>) -> Seq<Event> {
    match limit {
        Some(n) if n < events.len() => events.skip(events.len() - n),
        _ => events,
    }
}

/// The events that are shown: the most recent ones, of those the ones since an
/// instant, and of those the ones about a target.
pub open spec fn shown(
    events: Seq<Event>,
    limit: Option<usize>,
    since: Option<u64>,
    only: Option<Seq<char>>,
) -> Seq<Event> {
    most_recent(events, limit).filter(asked_for(since, only))
}

/// A limit means the most recent events: what is shown is no more than the
/// limit, in the order of the record, all of it from the end of the record.
pub proof fn law_limit_is_most_recent(
    events: Seq<Event>,
    limit: usize,
    since: Option<u64>,
    only: Option<Seq<char>>,
)
    ensures
        shown(events, Some(limit), since, only).len() <= limit,
        shown(events, Some(limit), None, None) == most_recent(events, Some(limit)),
        forall|k: int|
            0 <= k < shown(events, Some(limit), since, only).len() ==> most_recent(
                events,
                Some(limit),
            ).contains(#[trigger] shown(events, Some(limit), since, only)[k]),
{
    let recent = most_recent(events, Some(limit));
    lemma_filter_takes(recent, asked_for(since, only));
    lemma_filter_keeps_all(recent, asked_for(None, None));
}

proof fn lemma_filter_takes(events: Seq<Event>, keep: spec_fn(Event) -> bool)
    ensures
        events.filter(keep).len() <= events.len(),
        forall|k: int|
            0 <= k < events.filter(keep).len() ==> events.contains(
                #[trigger] events.filter(keep)[k],
            ),
    decreases events.len(),
{
    reveal(Seq::filter);
    if events.len() > 0 {
        let rest = events.drop_last();
        lemma_filter_takes(rest, keep);
        assert forall|k: int| 0 <= k < events.filter(keep).len() implies events.contains(
            #[trigger] events.filter(keep)[k],
        ) by {
            if k < rest.filter(keep).len() {
                assert(events.filter(keep)[k] == rest.filter(keep)[k]);
                let j = choose|j: int| 0 <= j < rest.len() && rest[j] == rest.filter(keep)[k];
                assert(events[j] == events.filter(keep)[k]);
            } else {
                assert(events[events.len() - 1] == events.filter(keep)[k]);
            }
        }
    }
}

proof fn lemma_filter_keeps_all(events: Seq<Event>, keep: spec_fn(Event) -> bool)
    requires
        forall|event: Event| #[trigger] keep(event),
    ensures
        events.filter(keep) == events,
    decreases events.len(),
{
    reveal(Seq::filter);
    if events.len() > 0 {
        lemma_filter_keeps_all(events.drop_last(), keep);
        assert(events.drop_last().push(events.last()) =~= events);
    } else {
        assert(events.filter(keep) =~= events);
    }
}

pub open spec fn kind_name(kind: EventKind) -> Seq<char> {
    match kind {
        EventKind::PluginUpdated => "plugin_updated"@,
        EventKind::PluginRolledBack => "plugin_rolled_back"@,
        EventKind::PluginResumed => "plugin_resumed"@,
        EventKind::CoreUpdated => "core_updated"@,
        EventKind::FleetConfigSynced => "fleet_config_synced"@,
        EventKind::FleetPluginSynced => "fleet_plugin_synced"@,
    }
}

impl EventKind {
    /// The name under which the record holds a kind.
    pub fn name(self) -> (r: &'static str)
        ensures
            r@ == kind_name(self),
    {
        match self {
            EventKind::PluginUpdated => "plugin_updated",
            EventKind::PluginRolledBack => "plugin_rolled_back",
            EventKind::PluginResumed => "plugin_resumed",
            EventKind::CoreUpdated => "core_updated",
            EventKind::FleetConfigSynced => "fleet_config_synced",
            EventKind::FleetPluginSynced => "fleet_plugin_synced",
        }
    }
}

/// An event in one line, its time in UTC.
pub fn event_line(event: &Event) -> (r: String)
    ensures
        r@ == clock::unix_text(event.unix_seconds as nat) + "  "@ + kind_name(event.kind) + "  "@
            + event.target@ + "  "@ + event.previous@ + " -> "@ + event.current@,
{
    clock::format_unix(event.unix_seconds).concat("  ").concat(event.kind.name()).concat(
        "  ",
    ).concat(event.target.as_str()).concat("  ").concat(event.previous.as_str()).concat(
        " -> ",
    ).concat(event.current.as_str())
}

/// Selects what `history` shows.
pub fn select(
    events: &Vec<Event>,
    limit: Option<usize>,
    since: Option<u64>,
    only: Option<&str>,
) -> (r: Vec<Event>)
    ensures
        r@ == shown(events@, limit, since, text::opt_str(only)),
{
    let start: usize = match limit {
        Some(n) => if n < events.len() {
            events.len() - n
        } else {
            0
        },
        None => 0,
    };
    let ghost recent = events@.skip(start as int);
    let ghost keep = asked_for(since, text::opt_str(only));
    assert(events@.skip(0) =~= events@);
    let mut out: Vec<Event> = Vec::new();
    let mut i: usize = start;
    proof {
        reveal(Seq::filter);
        assert(recent.take(0).filter(keep) =~= seq![]);
    }
    while i < events.len()
        invariant
            start <= i <= events.len(),
            recent == events@.skip(start as int),
            keep == asked_for(since, text::opt_str(only)),
            out@ == recent.take(i - start).filter(keep),
        decreases events.len() - i,
    {
        let event = &events[i];
        proof {
            reveal(Seq::filter);
            assert(recent.take(i - start + 1).drop_last() =~= recent.take(i - start));
            assert(recent.take(i - start + 1).last() == *event);
        }
        let late = match since {
            Some(from) => event.unix_seconds >= from,
            None => true,
        };
        let asked = match only {
            Some(id) => text::text_eq(event.target.as_str(), id),
            None => true,
        };
        if late && asked {
            out.push(event.clone());
        }
        i = i + 1;
    }
    assert(recent.take(i - start) =~= recent);
    out
}

// ---------------------------------------------------------------------------
// What is kept, undone and shown

/// Everything but an update of core counts for its target, an update or a
/// resumption can be rolled back, and a rollback can be resumed.
pub proof fn law_kinds_allow_what_they_undo(kind: EventKind)
    ensures
        is_kept(kind) <==> !(kind is CoreUpdated),
        can_undo(Undo::Rollback, kind) <==> kind is PluginUpdated || kind is PluginResumed,
        can_undo(Undo::Resume, kind) <==> kind is PluginRolledBack,
        undone_kind(Undo::Rollback) is PluginRolledBack,
        undone_kind(Undo::Resume) is PluginResumed,
{
}

/// A rollback goes to the commit before the event and pins it there; a resume
/// returns to the ref that was followed, or to the default branch.
pub proof fn law_undoing_leads_back(event: Event, installed: Seq<char>, commit: Seq<char>, now: u64)
    ensures
        undo_ref(Undo::Rollback, event) == Some(event.previous@),
        undo_commit(Undo::Rollback, event) == Some(event.previous@),
        undo_ref(Undo::Resume, event) == text::opt_text(event.tracking_ref),
        undo_commit(Undo::Resume, event) is None,
        ({
            let back = undo_record(Undo::Rollback, event, installed, commit, now);
            let on = undo_record(Undo::Resume, event, installed, commit, now);
            &&& back.target == event.target@ && on.target == event.target@
            &&& back.previous == installed && back.current == commit
            &&& on.previous == installed && on.current == commit
            &&& back.tracking_ref == text::opt_text(event.tracking_ref)
            &&& on.tracking_ref == text::opt_text(event.tracking_ref)
            &&& back.unix_seconds == now && on.unix_seconds == now
        }),
{
}

/// An update is recorded with the commit before and after it, and the ref that
/// the plugin follows.
pub proof fn law_update_is_recorded(state: PluginState, commit: Seq<char>, now: u64)
    ensures
        ({
            let record = update_record(state, commit, now);
            &&& record.kind is PluginUpdated
            &&& record.target == state.plugin_id@
            &&& record.current == commit
            &&& record.unix_seconds == now
            &&& state.installed_sha matches Some(sha) ==> record.previous == sha@
            &&& record.tracking_ref == text::opt_text(state.requested_ref)
        }),
{
}

/// A limit leaves the last events of the record, as many as it says, in their
/// order; without one all are left.
pub proof fn law_limit_leaves_the_end(events: Seq<Event>, limit: usize, k: int)
    ensures
        most_recent(events, None) == events,
        limit >= events.len() ==> most_recent(events, Some(limit)) == events,
        limit < events.len() ==> most_recent(events, Some(limit)).len() == limit,
        limit < events.len() && 0 <= k < limit ==> most_recent(events, Some(limit))[k]
            == events[events.len() - limit + k],
{
}

/// What is shown are the recent events that happened since the given moment and
/// are about the given target, all of them and no other.
pub proof fn law_shown_is_what_was_asked_for(
    events: Seq<Event>,
    limit: Option<usize>,
    since: Option<u64>,
    only: Option<Seq<char>>,
    k: int,
)
    ensures
        0 <= k < shown(events, limit, since, only).len() ==> {
            let event = shown(events, limit, since, only)[k];
            &&& since matches Some(from) ==> event.unix_seconds >= from
            &&& only matches Some(id) ==> event.target@ == id
            &&& most_recent(events, limit).contains(event)
        },
        0 <= k < most_recent(events, limit).len() ==> {
            let event = most_recent(events, limit)[k];
            (since matches Some(from) ==> event.unix_seconds >= from) && (only matches Some(id)
                ==> event.target@ == id) ==> shown(events, limit, since, only).contains(event)
        },
{
    lemma_filter_is_exact(most_recent(events, limit), asked_for(since, only));
}

proof fn lemma_filter_is_exact(events: Seq<Event>, keep: spec_fn(Event) -> bool)
    ensures
        forall|k: int|
            0 <= k < events.filter(keep).len() ==> keep(#[trigger] events.filter(keep)[k])
                && events.contains(events.filter(keep)[k]),
        forall|k: int|
            0 <= k < events.len() && keep(#[trigger] events[k]) ==> events.filter(keep).contains(
                events[k],
            ),
    decreases events.len(),
{
    reveal(Seq::filter);
    if events.len() > 0 {
        let rest = events.drop_last();
        let n = events.len() - 1;
        lemma_filter_is_exact(rest, keep);
        let a = rest.filter(keep);
        let b = events.filter(keep);
        assert(b == if keep(events[n]) {
            a.push(events[n])
        } else {
            a
        });
        assert forall|k: int| 0 <= k < b.len() implies keep(#[trigger] b[k]) && events.contains(
            b[k],
        ) by {
            if k < a.len() {
                assert(a[k] == b[k]);
                let j = choose|j: int| 0 <= j < rest.len() && rest[j] == a[k];
                assert(events[j] == b[k]);
            } else {
                assert(events[n] == b[k]);
            }
        }
        assert forall|k: int| 0 <= k < events.len() && keep(
            #[trigger] events[k],
        ) implies b.contains(events[k]) by {
            if k < n {
                assert(rest[k] == events[k]);
                let j = choose|j: int| 0 <= j < a.len() && a[j] == events[k];
                assert(b[j] == events[k]);
            } else {
                assert(b[b.len() - 1] == events[k]);
            }
        }
    }
}

/// The last events that can be undone are those of the asked kind and target,
/// all of them and no other.
pub proof fn law_undoable_is_exact(
    events: Seq<Event>,
    undo: Undo,
    only: Option<Seq<char>>,
    k: int,
)
    ensures
        0 <= k < undoable_among(events, undo, only).len() ==> {
            let event = undoable_among(events, undo, only)[k];
            &&& undo == Undo::Rollback ==> event.kind is PluginUpdated || event.kind is PluginResumed
            &&& undo == Undo::Resume ==> event.kind is PluginRolledBack
            &&& only matches Some(id) ==> event.target@ == id
            &&& events.contains(event)
        },
        0 <= k < events.len() && (only matches Some(id) ==> events[k].target@ == id) && (undo
            == Undo::Rollback && (events[k].kind is PluginUpdated || events[k].kind is PluginResumed)
            || undo == Undo::Resume && events[k].kind is PluginRolledBack) ==> undoable_among(
            events,
            undo,
            only,
        ).contains(events[k]),
{
    lemma_filter_is_exact(
        events,
        |event: Event| can_undo(undo, event.kind) && wanted(only, event.target@),
    );
}

/// An error in the record names the file and the line, counted from one; blank
/// lines count but are skipped.
pub proof fn law_error_names_its_line(path: Seq<char>, index: nat, line: String, e: String)
    ensures
        line_outcome(path, index, HistoryLine::Unreadable(e)) == Some(
            Err::<Event, Seq<char>>(path + ":"@ + text::decimal(index + 1) + ": "@ + e@),
        ),
        text::trimmed(line@).len() > 0 ==> line_outcome(
            path,
            index,
            (HistoryLine::Read { line, parsed: Err(e) }),
        ) == Some(
            Err::<Event, Seq<char>>(
                path + ":"@ + text::decimal(index + 1) + ": "@ + "invalid JSON: "@ + e@,
            ),
        ),
        text::trimmed(line@).len() == 0 ==> line_outcome(
            path,
            index,
            (HistoryLine::Read { line, parsed: Err(e) }),
        ) is None,
{
}

/// Each kind is recorded under its own name.
pub proof fn law_kinds_have_their_names()
    ensures
        kind_name(EventKind::PluginUpdated) == "plugin_updated"@,
        kind_name(EventKind::PluginRolledBack) == "plugin_rolled_back"@,
        kind_name(EventKind::PluginResumed) == "plugin_resumed"@,
        kind_name(EventKind::CoreUpdated) == "core_updated"@,
        kind_name(EventKind::FleetConfigSynced) == "fleet_config_synced"@,
        kind_name(EventKind::FleetPluginSynced) == "fleet_plugin_synced"@,
{
}

} // verus!
