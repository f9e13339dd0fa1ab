//! Bringing the plugins of connected computers to a reviewed desired state.
//!
//! The desired state names exact commits. Linked plugins, local forks,
//! different sources, remote-only plugins, incompatible Herdr versions,
//! protocol splits, unreachable hosts and incomplete metadata are held, never
//! overwritten or uninstalled.

use crate::config::{self, Config, Policy, Settings};
use crate::exec::{self, ExecError, Output};
use crate::fleet::{self, FleetPlugin, HostState};
use crate::herdr;
use crate::history::EventKind;
use crate::location::Location;
use crate::order;
use crate::plugins::{self, InstalledPlugin};
use crate::text::{self, CharClass};
use crate::version;
use std::cmp::Ordering;
use vstd::prelude::*;
use vstd::string::*;

verus! {

pub const DESIRED_FILE: &'static str = "desired.toml";

/// Files larger than this are not read or written.
pub const MAX_FILE_BYTES: u64 = 1_048_576;

#[derive(Debug)]
pub struct DesiredState {
    pub schema_version: u32,
    pub generated_unix_seconds: u64,
    pub settings: Config,
    pub plugins: Vec<DesiredPlugin>,
}

#[derive(Debug)]
pub struct DesiredPlugin {
    pub plugin_id: String,
    pub source: String,
    pub revision: String,
    pub enabled: bool,
    /// The Herdr version that the plugin needs at least. Absent in files that
    /// were written before this was recorded: those hold every change.
    pub min_herdr_version: Option<String>,
}

/// What is desired of a plugin.
pub struct Desire {
    pub plugin_id: Seq<char>,
    pub source: Seq<char>,
    pub revision: Seq<char>,
    pub enabled: bool,
    pub min_herdr_version: Option<Seq<char>>,
}

impl View for DesiredPlugin {
    type V = Desire;

    open spec fn view(&self) -> Desire {
        Desire {
            plugin_id: self.plugin_id@,
            source: self.source@,
            revision: self.revision@,
            enabled: self.enabled,
            min_herdr_version: text::opt_text(self.min_herdr_version),
        }
    }
}

impl Clone for DesiredPlugin {
    fn clone(&self) -> (r: Self)
        ensures
            r == *self,
    {
        DesiredPlugin {
            plugin_id: self.plugin_id.clone(),
            source: self.source.clone(),
            revision: self.revision.clone(),
            enabled: self.enabled,
            min_herdr_version: text::clone_option(&self.min_herdr_version),
        }
    }
}

pub open spec fn desires(plugins: Seq<DesiredPlugin>) -> Seq<Desire> {
    Seq::new(plugins.len(), |i: int| plugins[i]@)
}

#[derive(Debug, Clone, PartialEq, Eq)]
pub enum SyncAction {
    Current,
    Install,
    Update,
    Enable,
    Disable,
    SyncSettings,
    Hold(String),
    Offline(String),
}

/// What an action says.
pub enum Act {
    Current,
    Install,
    Update,
    Enable,
    Disable,
    SyncSettings,
    Hold(Seq<char>),
    Offline(Seq<char>),
}

impl View for SyncAction {
    type V = Act;

    open spec fn view(&self) -> Act {
        match *self {
            SyncAction::Current => Act::Current,
            SyncAction::Install => Act::Install,
            SyncAction::Update => Act::Update,
            SyncAction::Enable => Act::Enable,
            SyncAction::Disable => Act::Disable,
            SyncAction::SyncSettings => Act::SyncSettings,
            SyncAction::Hold(reason) => Act::Hold(reason@),
            SyncAction::Offline(reason) => Act::Offline(reason@),
        }
    }
}

#[derive(Debug)]
pub struct SyncDecision {
    pub host: String,
    pub target: String,
    pub plugin_id: String,
    pub source: Option<String>,
    pub previous: Option<String>,
    pub desired: Option<String>,
    pub action: SyncAction,
}

/// What is decided for one thing on one host.
pub struct Verdict {
    pub host: Seq<char>,
    pub target: Seq<char>,
    pub plugin_id: Seq<char>,
    pub source: Option<Seq<char>>,
    pub previous: Option<Seq<char>>,
    pub desired: Option<Seq<char>>,
    pub action: Act,
}

impl View for SyncDecision {
    type V = Verdict;

    open spec fn view(&self) -> Verdict {
        Verdict {
            host: self.host@,
            target: self.target@,
            plugin_id: self.plugin_id@,
            source: text::opt_text(self.source),
            previous: text::opt_text(self.previous),
            desired: text::opt_text(self.desired),
            action: self.action@,
        }
    }
}

pub open spec fn verdicts(decisions: Seq<SyncDecision>) -> Seq<Verdict> {
    Seq::new(decisions.len(), |i: int| decisions[i]@)
}

pub broadcast proof fn lemma_verdicts_push(decisions: Seq<SyncDecision>, d: SyncDecision)
    ensures
        #[trigger] verdicts(decisions.push(d)) == verdicts(decisions).push(d@),
{
    assert(verdicts(decisions.push(d)) =~= verdicts(decisions).push(d@));
}

#[derive(Debug)]
pub struct SyncReport {
    pub desired_path: String,
    pub desired_exists: bool,
    pub generated_unix_seconds: u64,
    pub decisions: Vec<SyncDecision>,
    pub warnings: Vec<String>,
}

/// Where the desired state lies.
pub fn desired_path(config_dir: &str) -> (r: Location)
    ensures
        r.is(config_dir@, seq![DESIRED_FILE@]),
{
    let r = Location::at(config_dir).join(DESIRED_FILE);
    assert(text::texts(r.components@) =~= seq![DESIRED_FILE@]);
    r
}

// ---------------------------------------------------------------------------
// Validation

/// What is wrong with a desired plugin.
pub open spec fn desire_fault(plugin: Desire) -> Option<Seq<char>> {
    if plugin.plugin_id.len() == 0 || text::utf8_len(plugin.plugin_id) > 120 || !text::all_in(
        plugin.plugin_id,
        CharClass::PluginId,
    ) {
        Some("desired plugin id is invalid"@)
    } else {
        match plugins::source_fault(plugin.source) {
            Some(fault) => Some(fault),
            None => if plugins::commit(plugin.revision) {
                None
            } else {
                Some(
                    "desired plugin "@ + plugin.plugin_id + " must use an exact full commit"@,
                )
            },
        }
    }
}

fn validate_desired_plugin(plugin: &DesiredPlugin) -> (r: Result<(), String>)
    ensures
        match r {
            Ok(()) => desire_fault(plugin@) is None,
            Err(e) => desire_fault(plugin@) == Some(e@),
        },
{
    let id = plugin.plugin_id.as_str();
    if id.unicode_len() == 0 || text::byte_len(id) > 120 || !text::text_all_in(
        id,
        CharClass::PluginId,
    ) {
        return Err("desired plugin id is invalid".to_string());
    }
    if let Err(e) = plugins::validate_source(plugin.source.as_str()) {
        return Err(e);
    }
    if !plugins::full_commit(plugin.revision.as_str()) {
        return Err(
            "desired plugin ".to_string().concat(id).concat(" must use an exact full commit"),
        );
    }
    Ok(())
}

/// An id occurs among some plugins, ignoring case.
pub open spec fn repeats(plugins: Seq<Desire>, id: Seq<char>) -> bool {
    exists|i: int|
        0 <= i < plugins.len() && text::lowercase((#[trigger] plugins[i]).plugin_id)
            == text::lowercase(id)
}

/// The first fault among some desired plugins.
pub open spec fn desires_fault(plugins: Seq<Desire>, path: Seq<char>) -> Option<Seq<char>>
    decreases plugins.len(),
{
    if plugins.len() == 0 {
        None
    } else {
        match desires_fault(plugins.drop_last(), path) {
            Some(fault) => Some(fault),
            None => match desire_fault(plugins.last()) {
                Some(fault) => Some(fault),
                None => if repeats(plugins.drop_last(), plugins.last().plugin_id) {
                    Some(path + " repeats plugin "@ + plugins.last().plugin_id)
                } else {
                    None
                },
            },
        }
    }
}

/// What is wrong with a desired state.
pub open spec fn desired_fault(desired: DesiredState, path: Seq<char>) -> Option<Seq<char>> {
    if desired.schema_version != 1 {
        Some(
            path + " has unsupported schema_version "@ + text::decimal(
                desired.schema_version as nat,
            ),
        )
    } else {
        match config::settings_fault(desired.settings@, path) {
            Some(fault) => Some(fault),
            None => desires_fault(desires(desired.plugins@), path),
        }
    }
}

fn occurs_before(plugins: &Vec<DesiredPlugin>, n: usize, id: &str) -> (r: bool)
    requires
        n <= plugins.len(),
    ensures
        r == repeats(desires(plugins@).take(n as int), id@),
{
    let mut i: usize = 0;
    while i < n
        invariant
            i <= n,
            n <= plugins.len(),
            forall|k: int|
                0 <= k < i ==> text::lowercase(
                    (#[trigger] desires(plugins@).take(n as int)[k]).plugin_id,
                ) != text::lowercase(id@),
        decreases n - i,
    {
        if text::eq_ignore_case(plugins[i].plugin_id.as_str(), id) {
            assert(text::lowercase(desires(plugins@).take(n as int)[i as int].plugin_id)
                == text::lowercase(id@));
            return true;
        }
        i = i + 1;
    }
    false
}

proof fn lemma_fault_stays(plugins: Seq<Desire>, path: Seq<char>, n: int)
    requires
        0 <= n <= plugins.len(),
        desires_fault(plugins.take(n), path) is Some,
    ensures
        desires_fault(plugins, path) == desires_fault(plugins.take(n), path),
    decreases plugins.len() - n,
{
    if n < plugins.len() {
        assert(plugins.take(n + 1).drop_last() =~= plugins.take(n));
        lemma_fault_stays(plugins, path, n + 1);
    } else {
        assert(plugins.take(n) =~= plugins);
    }
}

/// Refuses a desired state of another schema, with invalid settings, with an
/// invalid plugin, or with a plugin twice.
pub fn validate_desired(desired: &DesiredState, path: &str) -> (r: Result<(), String>)
    ensures
        match r {
            Ok(()) => desired_fault(*desired, path@) is None,
            Err(e) => desired_fault(*desired, path@) == Some(e@),
        },
{
    if desired.schema_version != 1 {
        return Err(
            path.to_string().concat(" has unsupported schema_version ").concat(
                text::number_text(desired.schema_version as u64).as_str(),
            ),
        );
    }
    if let Err(e) = config::validate_value(&desired.settings, path) {
        return Err(e);
    }
    let ghost all = desires(desired.plugins@);
    let mut i: usize = 0;
    assert(all.take(0) =~= seq![]);
    while i < desired.plugins.len()
        invariant
            i <= desired.plugins.len(),
            all == desires(desired.plugins@),
            desires_fault(all.take(i as int), path@) is None,
            desired.schema_version == 1,
            config::settings_fault(desired.settings@, path@) is None,
        decreases desired.plugins.len() - i,
    {
        let plugin = &desired.plugins[i];
        assert(all.take(i + 1).drop_last() =~= all.take(i as int));
        assert(all.take(i + 1).last() == plugin@);
        if let Err(e) = validate_desired_plugin(plugin) {
            proof {
                lemma_fault_stays(all, path@, i + 1);
            }
            return Err(e);
        }
        if occurs_before(&desired.plugins, i, plugin.plugin_id.as_str()) {
            proof {
                lemma_fault_stays(all, path@, i + 1);
            }
            return Err(
                path.to_string().concat(" repeats plugin ").concat(plugin.plugin_id.as_str()),
            );
        }
        i = i + 1;
    }
    assert(all.take(i as int) =~= all);
    Ok(())
}

/// Every plugin of a valid desired state is named by an exact commit, from a
/// valid source, and occurs once.
pub proof fn law_valid_desired(desired: DesiredState, path: Seq<char>)
    requires
        desired_fault(desired, path) is None,
    ensures
        forall|i: int|
            0 <= i < desired.plugins@.len() ==> plugins::commit(
                (#[trigger] desired.plugins@[i]).revision@,
            ) && plugins::source_fault(desired.plugins@[i].source@) is None,
        forall|i: int, j: int|
            #![trigger desired.plugins@[i], desired.plugins@[j]]
            0 <= i < j < desired.plugins@.len() ==> text::lowercase(
                desired.plugins@[i].plugin_id@,
            ) != text::lowercase(desired.plugins@[j].plugin_id@),
{
    let all = desires(desired.plugins@);
    lemma_no_fault(all, path);
    assert forall|i: int| 0 <= i < desired.plugins@.len() implies plugins::commit(
        (#[trigger] desired.plugins@[i]).revision@,
    ) && plugins::source_fault(desired.plugins@[i].source@) is None by {
        assert(desire_fault(all[i]) is None);
    }
    assert forall|i: int, j: int|
        #![trigger desired.plugins@[i], desired.plugins@[j]]
        0 <= i < j < desired.plugins@.len() implies text::lowercase(desired.plugins@[i].plugin_id@)
        != text::lowercase(desired.plugins@[j].plugin_id@) by {
        assert(text::lowercase(all[i].plugin_id) != text::lowercase(all[j].plugin_id));
    }
}

proof fn lemma_no_fault(all: Seq<Desire>, path: Seq<char>)
    requires
        desires_fault(all, path) is None,
    ensures
        forall|i: int| 0 <= i < all.len() ==> desire_fault(#[trigger] all[i]) is None,
        forall|i: int, j: int|
            0 <= i < j < all.len() ==> text::lowercase((#[trigger] all[i]).plugin_id)
                != text::lowercase((#[trigger] all[j]).plugin_id),
    decreases all.len(),
{
    if all.len() > 0 {
        let rest = all.drop_last();
        lemma_no_fault(rest, path);
        assert forall|i: int| 0 <= i < all.len() implies desire_fault(
            #[trigger] all[i],
        ) is None by {
            if i < rest.len() {
                assert(all[i] == rest[i]);
            }
        }
        assert forall|i: int, j: int| 0 <= i < j < all.len() implies text::lowercase(
            (#[trigger] all[i]).plugin_id,
        ) != text::lowercase((#[trigger] all[j]).plugin_id) by {
            assert(all[i] == rest[i]);
            if j < rest.len() {
                assert(all[j] == rest[j]);
            }
        }
    }
}

// ---------------------------------------------------------------------------
// Deriving the desired state from this machine

/// What an installed plugin contributes to the desired state: a desired plugin,
/// or a warning, or an error that ends the export.
pub enum Contribution {
    Desired(Desire),
    Warning(Seq<char>),
    Fault(Seq<char>),
}

pub open spec fn contribution(plugin: InstalledPlugin) -> Contribution {
    match plugin.source {
        None => Contribution::Warning(plugin.plugin_id@ + " has no managed source"@),
        Some(source) => if source.kind@ == "local"@ {
            Contribution::Warning(
                plugin.plugin_id@
                    + " is linked locally and is intentionally absent from desired state"@,
            )
        } else if source.kind@ != "github"@ {
            Contribution::Warning(plugin.plugin_id@ + " is not GitHub-managed"@)
        } else {
            match (source.owner, source.repo, source.resolved_commit) {
                (Some(owner), Some(repo), Some(revision)) => {
                    let path = owner@ + "/"@ + repo@;
                    let desire = Desire {
                        plugin_id: plugin.plugin_id@,
                        source: match source.subdir {
                            Some(dir) => path + "/"@ + dir@,
                            None => path,
                        },
                        revision: revision@,
                        enabled: plugin.enabled,
                        min_herdr_version: text::opt_text(plugin.min_herdr_version),
                    };
                    match desire_fault(desire) {
                        Some(fault) => Contribution::Fault(fault),
                        None => Contribution::Desired(desire),
                    }
                },
                _ => Contribution::Warning(
                    plugin.plugin_id@ + " has incomplete GitHub metadata"@,
                ),
            }
        },
    }
}

/// The desired plugins and the warnings of some installed plugins, in order; or
/// the first fault among them.
pub open spec fn contributions(plugins: Seq<InstalledPlugin>) -> Result<
    (Seq<Desire>, Seq<Seq<char>>),
    Seq<char>,
>
    decreases plugins.len(),
{
    if plugins.len() == 0 {
        Ok((seq![], seq![]))
    } else {
        match contributions(plugins.drop_last()) {
            Err(fault) => Err(fault),
            Ok((desired, warnings)) => match contribution(plugins.last()) {
                Contribution::Desired(desire) => Ok((desired.push(desire), warnings)),
                Contribution::Warning(warning) => Ok((desired, warnings.push(warning))),
                Contribution::Fault(fault) => Err(fault),
            },
        }
    }
}

proof fn lemma_contribution_fault_stays(plugins: Seq<InstalledPlugin>, n: int)
    requires
        0 <= n <= plugins.len(),
        contributions(plugins.take(n)) is Err,
    ensures
        contributions(plugins) == contributions(plugins.take(n)),
    decreases plugins.len() - n,
{
    if n < plugins.len() {
        assert(plugins.take(n + 1).drop_last() =~= plugins.take(n));
        lemma_contribution_fault_stays(plugins, n + 1);
    } else {
        assert(plugins.take(n) =~= plugins);
    }
}

enum Contributed {
    Desired(DesiredPlugin),
    Warning(String),
    Fault(String),
}

fn contribute(plugin: &InstalledPlugin) -> (r: Contributed)
    ensures
        match r {
            Contributed::Desired(d) => contribution(*plugin) == Contribution::Desired(d@),
            Contributed::Warning(w) => contribution(*plugin) == Contribution::Warning(w@),
            Contributed::Fault(f) => contribution(*plugin) == Contribution::Fault(f@),
        },
{
    let source = match &plugin.source {
        Some(source) => source,
        None => {
            return Contributed::Warning(plugin.plugin_id.clone().concat(" has no managed source"));
        },
    };
    if text::text_eq(source.kind.as_str(), "local") {
        return Contributed::Warning(
            plugin.plugin_id.clone().concat(
                " is linked locally and is intentionally absent from desired state",
            ),
        );
    }
    if !text::text_eq(source.kind.as_str(), "github") {
        return Contributed::Warning(plugin.plugin_id.clone().concat(" is not GitHub-managed"));
    }
    match (&source.owner, &source.repo, &source.resolved_commit) {
        (Some(owner), Some(repo), Some(revision)) => {
            let mut path = owner.clone().concat("/").concat(repo.as_str());
            if let Some(dir) = &source.subdir {
                path = path.concat("/").concat(dir.as_str());
            }
            let desired = DesiredPlugin {
                plugin_id: plugin.plugin_id.clone(),
                source: path,
                revision: revision.clone(),
                enabled: plugin.enabled,
                min_herdr_version: text::clone_option(&plugin.min_herdr_version),
            };
            match validate_desired_plugin(&desired) {
                Ok(()) => Contributed::Desired(desired),
                Err(e) => Contributed::Fault(e),
            }
        },
        _ => Contributed::Warning(
            plugin.plugin_id.clone().concat(" has incomplete GitHub metadata"),
        ),
    }
}

/// The order of the desired plugins: by id.
pub open spec fn desire_order(plugins: Seq<Desire>) -> spec_fn(int, int) -> bool {
    |i: int, j: int| !text::precedes(plugins[j].plugin_id, plugins[i].plugin_id)
}

/// `sorted` is `plugins` in the order of their ids.
pub open spec fn in_id_order(plugins: Seq<Desire>, sorted: Seq<Desire>) -> bool {
    exists|places: Seq<usize>|
        order::stable_order(places, desire_order(plugins), plugins.len()) && sorted
            == #[trigger] order::arranged(plugins, places)
}

proof fn lemma_desire_order(plugins: Seq<Desire>)
    ensures
        order::total_preorder(desire_order(plugins), plugins.len()),
{
    let leq = desire_order(plugins);
    assert forall|i: int, j: int|
        0 <= i < plugins.len() && 0 <= j < plugins.len() implies #[trigger] leq(i, j) || leq(
        j,
        i,
    ) by {
        text::lemma_precedes_total(plugins[i].plugin_id, plugins[j].plugin_id);
    }
    assert forall|i: int, j: int, k: int|
        0 <= i < plugins.len() && 0 <= j < plugins.len() && 0 <= k < plugins.len()
            && #[trigger] leq(i, j) && #[trigger] leq(j, k) implies leq(i, k) by {
        text::lemma_not_before_transitive(
            plugins[i].plugin_id,
            plugins[j].plugin_id,
            plugins[k].plugin_id,
        );
    }
}

fn sort_desired(plugins: Vec<DesiredPlugin>) -> (r: Vec<DesiredPlugin>)
    ensures
        in_id_order(desires(plugins@), desires(r@)),
{
    let ghost all = desires(plugins@);
    let ghost leq = desire_order(all);
    proof {
        lemma_desire_order(all);
    }
    let le = |i: usize, j: usize| -> (b: bool)
        requires
            i < plugins@.len(),
            j < plugins@.len(),
        ensures
            b == leq(i as int, j as int),
        { !text::text_precedes(plugins[j].plugin_id.as_str(), plugins[i].plugin_id.as_str()) };
    let places = order::sort_positions(plugins.len(), &le, Ghost(leq));
    proof {
        order::lemma_order_distinct(places@, leq, plugins@.len());
    }
    let r = order::arrange(plugins, &places);
    assert(desires(r@) =~= order::arranged(all, places@));
    r
}

/// The desired state of this machine, with what it leaves out and why.
pub fn derive_local(config: &Config, installed: &Vec<InstalledPlugin>, now: u64) -> (r: Result<
    (DesiredState, Vec<String>),
    String,
>)
    ensures
        match contributions(installed@) {
            Err(fault) => r matches Err(e) && e@ == fault,
            Ok((desired, warnings)) => r matches Ok((state, held)) && state.schema_version == 1
                && state.generated_unix_seconds == now && state.settings@ == config@
                && in_id_order(desired, desires(state.plugins@)) && text::texts(held@)
                == warnings,
        },
{
    broadcast use text::lemma_texts_push;

    let mut desired: Vec<DesiredPlugin> = Vec::new();
    let mut warnings: Vec<String> = Vec::new();
    let mut i: usize = 0;
    assert(installed@.take(0) =~= seq![]);
    assert(desires(desired@) =~= seq![]);
    assert(text::texts(warnings@) =~= seq![]);
    while i < installed.len()
        invariant
            i <= installed.len(),
            contributions(installed@.take(i as int)) == Ok::<
                (Seq<Desire>, Seq<Seq<char>>),
                Seq<char>,
            >((desires(desired@), text::texts(warnings@))),
        decreases installed.len() - i,
    {
        assert(installed@.take(i + 1).drop_last() =~= installed@.take(i as int));
        assert(installed@.take(i + 1).last() == installed@[i as int]);
        let ghost before = desired@;
        match contribute(&installed[i]) {
            Contributed::Desired(plugin) => {
                let ghost d = plugin@;
                desired.push(plugin);
                assert(desires(desired@) =~= desires(before).push(d));
            },
            Contributed::Warning(warning) => {
                let ghost held = warnings@;
                let ghost w = warning@;
                warnings.push(warning);
                assert(text::texts(warnings@) =~= text::texts(held).push(w));
            },
            Contributed::Fault(e) => {
                proof {
                    lemma_contribution_fault_stays(installed@, i + 1);
                }
                return Err(e);
            },
        }
        i = i + 1;
    }
    assert(installed@.take(i as int) =~= installed@);
    Ok(
        (
            DesiredState {
                schema_version: 1,
                generated_unix_seconds: now,
                settings: config.clone(),
                plugins: sort_desired(desired),
            },
            warnings,
        ),
    )
}

// ---------------------------------------------------------------------------
// Files

/// What looking at a file came to.
#[derive(Debug)]
pub enum RegularFile {
    Missing,
    Uninspectable(String),
    /// Its length, whether it is a regular file, and what reading it came to.
    Found { regular: bool, bytes: u64, content: Result<String, String> },
}

/// The text of a bounded regular file, or what is wrong with it.
pub open spec fn regular_text(path: Seq<char>, file: RegularFile) -> Result<Seq<char>, Seq<char>> {
    match file {
        RegularFile::Missing => Err(path + " not found"@),
        RegularFile::Uninspectable(e) => Err("cannot inspect "@ + path + ": "@ + e@),
        RegularFile::Found { regular, bytes, content } => if !regular || bytes > MAX_FILE_BYTES {
            Err(path + " is not a bounded regular file"@)
        } else {
            match content {
                Ok(source) => Ok(source@),
                Err(e) => Err("cannot read "@ + path + ": "@ + e@),
            }
        },
    }
}

/// Whether a file is worth reading.
pub fn readable(regular: bool, bytes: u64) -> (r: bool)
    ensures
        r == (regular && bytes <= MAX_FILE_BYTES),
{
    regular && bytes <= MAX_FILE_BYTES
}

pub fn read_regular(path: &str, file: &RegularFile) -> (r: Result<String, String>)
    ensures
        match regular_text(path@, *file) {
            Ok(source) => r matches Ok(s) && s@ == source,
            Err(error) => r matches Err(e) && e@ == error,
        },
{
    match file {
        RegularFile::Missing => Err(path.to_string().concat(" not found")),
        RegularFile::Uninspectable(e) => Err(
            "cannot inspect ".to_string().concat(path).concat(": ").concat(e.as_str()),
        ),
        RegularFile::Found { regular, bytes, content } => {
            if !readable(*regular, *bytes) {
                return Err(path.to_string().concat(" is not a bounded regular file"));
            }
            match content {
                Ok(source) => Ok(source.clone()),
                Err(e) => Err(
                    "cannot read ".to_string().concat(path).concat(": ").concat(e.as_str()),
                ),
            }
        },
    }
}

/// Why the desired state is not stored, if it is not.
pub open spec fn replacing_refused(path: Seq<char>, bytes: nat, existing: Option<bool>) -> Option<
    Seq<char>,
> {
    if bytes > MAX_FILE_BYTES {
        Some("desired state exceeds the size limit"@)
    } else if existing == Some(false) {
        Some("refusing to replace non-regular "@ + path)
    } else {
        None
    }
}

/// What forbids writing a file: its size, or something there that is not a
/// regular file. `existing` says whether what is there is one.
pub fn write_refusal(path: &str, bytes: u64, existing: Option<bool>) -> (r: Option<String>)
    ensures
        text::opt_text(r) == replacing_refused(path@, bytes as nat, existing),
{
    if bytes > MAX_FILE_BYTES {
        return Some("desired state exceeds the size limit".to_string());
    }
    match existing {
        Some(regular) => if regular {
            None
        } else {
            Some("refusing to replace non-regular ".to_string().concat(path))
        },
        None => None,
    }
}

/// A desired state that was loaded, or what to do instead.
#[derive(Debug)]
pub enum DesiredSource {
    /// The file holds this.
    File(DesiredState),
    /// There is no file: plan from this machine's live inventory, with this
    /// warning.
    Live(String),
}

/// What loading the desired state comes to.
pub open spec fn desired_source(
    path: Seq<char>,
    file: RegularFile,
    parsed: Result<DesiredState, String>,
) -> Result<Option<DesiredState>, Seq<char>> {
    match regular_text(path, file) {
        Ok(_) => match parsed {
            Err(e) => Err("cannot parse "@ + path + ": "@ + e@),
            Ok(desired) => match desired_fault(desired, path) {
                Some(fault) => Err(fault),
                None => Ok(Some(desired)),
            },
        },
        Err(error) => if text::has_text(error, "not found"@) {
            Ok(None)
        } else {
            Err(error)
        },
    }
}

/// Settles where the desired state comes from: the file, or this machine's
/// inventory where there is no file.
pub fn load_or_derive(
    path: &str,
    file: &RegularFile,
    parsed: Result<DesiredState, String>,
) -> (r: Result<DesiredSource, String>)
    ensures
        match desired_source(path@, *file, parsed) {
            Err(error) => r matches Err(e) && e@ == error,
            Ok(Some(desired)) => r matches Ok(DesiredSource::File(state)) && state == desired,
            Ok(None) => r matches Ok(DesiredSource::Live(warning)) && warning@ == path@
                + " does not exist; planning from this machine's live managed plugin inventory"@,
        },
{
    match read_regular(path, file) {
        Ok(_) => {
            let desired = match parsed {
                Ok(desired) => desired,
                Err(e) => {
                    return Err(
                        "cannot parse ".to_string().concat(path).concat(": ").concat(e.as_str()),
                    );
                },
            };
            match validate_desired(&desired, path) {
                Ok(()) => Ok(DesiredSource::File(desired)),
                Err(e) => Err(e),
            }
        },
        Err(error) => if text::contains_text(error.as_str(), "not found") {
            Ok(
                DesiredSource::Live(
                    path.to_string().concat(
                        " does not exist; planning from this machine's live managed plugin inventory",
                    ),
                ),
            )
        } else {
            Err(error)
        },
    }
}

/// The desired state that may be applied, or why not: the file has to be there,
/// valid, and its settings those of the active configuration. Settings are
/// compared by their fingerprints.
pub fn read_desired_or_error(
    path: &str,
    file: &RegularFile,
    parsed: Result<DesiredState, String>,
    desired_fingerprint: &str,
    active_fingerprint: &str,
) -> (r: Result<DesiredState, String>)
    ensures
        match (regular_text(path@, *file), parsed) {
            (Err(_), _) => r matches Err(e) && e@ == path@
                + " is required for apply; run `herdr-updater sync export` and review it first"@,
            (Ok(_), Err(error)) => r matches Err(e) && e@ == "cannot parse "@ + path@ + ": "@
                + error@,
            (Ok(_), Ok(desired)) => match desired_fault(desired, path@) {
                Some(fault) => r matches Err(e) && e@ == fault,
                None => if desired_fingerprint@ == active_fingerprint@ {
                    r == Ok::<DesiredState, String>(desired)
                } else {
                    r matches Err(e) && e@ == path@
                        + " settings differ from the active config; export and review desired state again"@
                },
            },
        },
{
    if read_regular(path, file).is_err() {
        return Err(
            path.to_string().concat(
                " is required for apply; run `herdr-updater sync export` and review it first",
            ),
        );
    }
    let desired = match parsed {
        Ok(desired) => desired,
        Err(e) => {
            return Err("cannot parse ".to_string().concat(path).concat(": ").concat(e.as_str()));
        },
    };
    if let Err(e) = validate_desired(&desired, path) {
        return Err(e);
    }
    if !text::text_eq(desired_fingerprint, active_fingerprint) {
        return Err(
            path.to_string().concat(
                " settings differ from the active config; export and review desired state again",
            ),
        );
    }
    Ok(desired)
}

/// What an export reports.
pub open spec fn export_lines(count: nat, path: Seq<char>, warnings: Seq<Seq<char>>) -> Seq<
    Seq<char>,
> {
    seq!["exported "@ + text::decimal(count) + " plugin(s) to "@ + path] + Seq::new(
        warnings.len(),
        |i: int| "HOLD "@ + warnings[i],
    )
}

pub fn export_desired(state: &DesiredState, path: &str, warnings: &Vec<String>) -> (r: Vec<String>)
    ensures
        text::texts(r@) == export_lines(state.plugins@.len(), path@, text::texts(warnings@)),
{
    let mut out: Vec<String> = Vec::new();
    out.push(
        "exported ".to_string().concat(text::number_text(state.plugins.len() as u64).as_str()).concat(
            " plugin(s) to ",
        ).concat(path),
    );
    let ghost all = export_lines(state.plugins@.len(), path@, text::texts(warnings@));
    let mut i: usize = 0;
    assert(text::texts(out@) =~= all.take(1));
    while i < warnings.len()
        invariant
            i <= warnings.len(),
            all == export_lines(state.plugins@.len(), path@, text::texts(warnings@)),
            text::texts(out@) == all.take(i + 1),
        decreases warnings.len() - i,
    {
        let line = "HOLD ".to_string().concat(warnings[i].as_str());
        let ghost before = text::texts(out@);
        let ghost l = line@;
        out.push(line);
        assert(text::texts(out@) =~= before.push(l));
        assert(all.take(i + 2) =~= all.take(i + 1).push(all[i + 1]));
        i = i + 1;
    }
    assert(all.take(i + 1) =~= all);
    out
}

// ---------------------------------------------------------------------------
// Planning

/// The source of a plugin in an inventory, if it is a valid one.
pub open spec fn inventory_source(plugin: fleet::FleetFacts) -> Option<Seq<char>> {
    match (plugin.owner, plugin.repo) {
        (Some(owner), Some(repo)) => {
            let path = owner + "/"@ + repo;
            let source = match plugin.subdir {
                Some(dir) => path + "/"@ + dir,
                None => path,
            };
            if plugins::source_fault(source) is None {
                Some(source)
            } else {
                None
            }
        },
        _ => None,
    }
}

fn source_of(plugin: &FleetPlugin) -> (r: Option<String>)
    ensures
        text::opt_text(r) == inventory_source(plugin@),
{
    match (&plugin.owner, &plugin.repo) {
        (Some(owner), Some(repo)) => {
            let mut source = owner.clone().concat("/").concat(repo.as_str());
            if let Some(dir) = &plugin.subdir {
                source = source.concat("/").concat(dir.as_str());
            }
            match plugins::validate_source(source.as_str()) {
                Ok(()) => Some(source),
                Err(_) => None,
            }
        },
        _ => None,
    }
}

/// Why the Herdr version of a host holds a change of a plugin, if it does.
pub open spec fn compatibility_hold(minimum: Option<Seq<char>>, installed: Option<Seq<char>>)
    -> Option<Seq<char>> {
    match (minimum, installed) {
        (None, _) => Some(
            "desired state records no minimum Herdr version; run sync export again"@,
        ),
        (Some(_), None) => Some("remote Herdr version is unknown"@),
        (Some(m), Some(v)) => match version::compared(v, m) {
            None => Some("remote Herdr version cannot be ordered against the plugin's minimum"@),
            Some(Ordering::Less) => Some(
                "remote Herdr "@ + v + " is older than the plugin's minimum "@ + m,
            ),
            Some(_) => None,
        },
    }
}

fn incompatible(minimum: &Option<String>, installed: &Option<String>) -> (r: Option<String>)
    ensures
        text::opt_text(r) == compatibility_hold(
            text::opt_text(*minimum),
            text::opt_text(*installed),
        ),
{
    let minimum = match minimum {
        Some(m) => m,
        None => {
            return Some(
                "desired state records no minimum Herdr version; run sync export again".to_string(),
            );
        },
    };
    let installed = match installed {
        Some(v) => v,
        None => {
            return Some("remote Herdr version is unknown".to_string());
        },
    };
    match version::compare(installed.as_str(), minimum.as_str()) {
        None => Some(
            "remote Herdr version cannot be ordered against the plugin's minimum".to_string(),
        ),
        Some(Ordering::Less) => Some(
            "remote Herdr ".to_string().concat(installed.as_str()).concat(
                " is older than the plugin's minimum ",
            ).concat(minimum.as_str()),
        ),
        Some(_) => None,
    }
}

/// What would bring a plugin to its desired state, compatibility aside.
pub open spec fn wanted_act(remote: Option<fleet::FleetFacts>, plugin: Desire) -> Act {
    match remote {
        None => Act::Install,
        Some(found) => if found.source == "local"@ {
            Act::Hold("remote plugin is linked; never overwrite a local fork"@)
        } else if inventory_source(found) != Some(plugin.source) {
            Act::Hold("remote plugin has a different source"@)
        } else if found.revision != Some(plugin.revision) {
            Act::Update
        } else if found.enabled != plugin.enabled {
            if plugin.enabled {
                Act::Enable
            } else {
                Act::Disable
            }
        } else {
            Act::Current
        },
    }
}

pub open spec fn is_change(act: Act) -> bool {
    act is Install || act is Update || act is Enable || act is Disable || act is SyncSettings
}

/// What is decided for a plugin on a host: a change is held where the host's
/// Herdr does not fit it.
pub open spec fn plugin_act(state: HostState, plugin: Desire) -> Act {
    let act = wanted_act(fleet::entry_of(state, plugin.plugin_id), plugin);
    if is_change(act) {
        match compatibility_hold(plugin.min_herdr_version, text::opt_text(state.version)) {
            Some(reason) => Act::Hold(reason),
            None => act,
        }
    } else {
        act
    }
}

pub open spec fn plugin_verdict(state: HostState, plugin: Desire) -> Verdict {
    Verdict {
        host: state.host@,
        target: state.target@,
        plugin_id: plugin.plugin_id,
        source: Some(plugin.source),
        previous: match fleet::entry_of(state, plugin.plugin_id) {
            Some(found) => found.revision,
            None => None,
        },
        desired: Some(plugin.revision),
        action: plugin_act(state, plugin),
    }
}

pub open spec fn is_desired(plugins: Seq<Desire>, id: Seq<char>) -> bool {
    exists|i: int| 0 <= i < plugins.len() && (#[trigger] plugins[i]).plugin_id == id
}

pub open spec fn remote_only_verdict(state: HostState, id: Seq<char>, found: FleetPlugin)
    -> Verdict {
    Verdict {
        host: state.host@,
        target: state.target@,
        plugin_id: id,
        source: inventory_source(found@),
        previous: text::opt_text(found.revision),
        desired: None,
        action: Act::Hold("remote-only plugin; never uninstall automatically"@),
    }
}

/// The verdicts on the first `n` plugins of a host's inventory that are not
/// desired.
pub open spec fn remote_only_verdicts(state: HostState, plugins: Seq<Desire>, n: int) -> Seq<
    Verdict,
>
    decreases n,
{
    if n <= 0 {
        seq![]
    } else {
        let rest = remote_only_verdicts(state, plugins, n - 1);
        let id = state.plugins.keys()[n - 1];
        if is_desired(plugins, id) {
            rest
        } else {
            rest.push(remote_only_verdict(state, id, state.plugins.values()[n - 1]))
        }
    }
}

/// The verdicts on a host: one for each desired plugin, then one for each
/// plugin that only the host has.
pub open spec fn host_verdicts(state: HostState, plugins: Seq<Desire>) -> Seq<Verdict> {
    Seq::new(plugins.len(), |i: int| plugin_verdict(state, plugins[i])) + remote_only_verdicts(
        state,
        plugins,
        state.plugins.keys().len() as int,
    )
}

fn plan_plugin(state: &HostState, plugin: &DesiredPlugin) -> (r: SyncDecision)
    ensures
        r@ == plugin_verdict(*state, plugin@),
{
    let remote = state.plugins.get(plugin.plugin_id.as_str());
    let previous = match remote {
        Some(found) => text::clone_option(&found.revision),
        None => None,
    };
    let action = match remote {
        None => SyncAction::Install,
        Some(found) => {
            let source = source_of(found);
            let same_source = match &source {
                Some(s) => text::text_eq(s.as_str(), plugin.source.as_str()),
                None => false,
            };
            let same_revision = match &found.revision {
                Some(s) => text::text_eq(s.as_str(), plugin.revision.as_str()),
                None => false,
            };
            if text::text_eq(found.source.as_str(), "local") {
                SyncAction::Hold(
                    "remote plugin is linked; never overwrite a local fork".to_string(),
                )
            } else if !same_source {
                SyncAction::Hold("remote plugin has a different source".to_string())
            } else if !same_revision {
                SyncAction::Update
            } else if found.enabled != plugin.enabled {
                if plugin.enabled {
                    SyncAction::Enable
                } else {
                    SyncAction::Disable
                }
            } else {
                SyncAction::Current
            }
        },
    };
    let held = match &action {
        SyncAction::Install | SyncAction::Update | SyncAction::Enable | SyncAction::Disable =>
            incompatible(&plugin.min_herdr_version, &state.version),
        _ => None,
    };
    let action = match held {
        Some(reason) => SyncAction::Hold(reason),
        None => action,
    };
    SyncDecision {
        host: state.host.clone(),
        target: state.target.clone(),
        plugin_id: plugin.plugin_id.clone(),
        source: Some(plugin.source.clone()),
        previous,
        desired: Some(plugin.revision.clone()),
        action,
    }
}

fn desires_id(plugins: &Vec<DesiredPlugin>, id: &str) -> (r: bool)
    ensures
        r == is_desired(desires(plugins@), id@),
{
    let mut i: usize = 0;
    while i < plugins.len()
        invariant
            i <= plugins.len(),
            forall|k: int| 0 <= k < i ==> (#[trigger] desires(plugins@)[k]).plugin_id != id@,
        decreases plugins.len() - i,
    {
        if text::text_eq(plugins[i].plugin_id.as_str(), id) {
            assert(desires(plugins@)[i as int].plugin_id == id@);
            return true;
        }
        i = i + 1;
    }
    false
}

/// Decides what to do with every plugin on a host.
pub fn plan_host(state: &HostState, desired: &DesiredState) -> (r: Vec<SyncDecision>)
    ensures
        verdicts(r@) == host_verdicts(*state, desires(desired.plugins@)),
{
    let ghost plugins = desires(desired.plugins@);
    let ghost wanted = Seq::new(plugins.len(), |i: int| plugin_verdict(*state, plugins[i]));
    let mut out: Vec<SyncDecision> = Vec::new();
    let mut i: usize = 0;
    assert(verdicts(out@) =~= wanted.take(0));
    while i < desired.plugins.len()
        invariant
            i <= desired.plugins.len(),
            plugins == desires(desired.plugins@),
            wanted == Seq::new(plugins.len(), |i: int| plugin_verdict(*state, plugins[i])),
            verdicts(out@) == wanted.take(i as int),
        decreases desired.plugins.len() - i,
    {
        let decision = plan_plugin(state, &desired.plugins[i]);
        let ghost before = out@;
        let ghost d = decision;
        out.push(decision);
        proof {
            lemma_verdicts_push(before, d);
            assert(wanted.take(i + 1) =~= wanted.take(i as int).push(wanted[i as int]));
        }
        i = i + 1;
    }
    assert(wanted.take(i as int) =~= wanted);
    let n = state.plugins.len();
    let mut k: usize = 0;
    assert(verdicts(out@) =~= wanted + remote_only_verdicts(*state, plugins, 0));
    while k < n
        invariant
            k <= n,
            n == state.plugins.keys().len(),
            plugins == desires(desired.plugins@),
            verdicts(out@) == wanted + remote_only_verdicts(*state, plugins, k as int),
        decreases n - k,
    {
        let id = state.plugins.key_at(k);
        let found = state.plugins.value_at(k);
        if !desires_id(&desired.plugins, id.as_str()) {
            let decision = SyncDecision {
                host: state.host.clone(),
                target: state.target.clone(),
                plugin_id: id.clone(),
                source: source_of(found),
                previous: text::clone_option(&found.revision),
                desired: None,
                action: SyncAction::Hold(
                    "remote-only plugin; never uninstall automatically".to_string(),
                ),
            };
            let ghost before = out@;
            let ghost d = decision;
            out.push(decision);
            proof {
                lemma_verdicts_push(before, d);
                assert(d@ == remote_only_verdict(*state, id@, *found));
                assert(verdicts(out@) =~= wanted + remote_only_verdicts(*state, plugins, k + 1));
            }
        }
        k = k + 1;
    }
    out
}

/// Linked plugins and plugins of another source are never changed, and nothing
/// is changed where no minimum Herdr version is recorded or the host's Herdr is
/// unknown, unorderable or too old.
pub proof fn law_sync_never_overwrites(state: HostState, plugin: Desire)
    ensures
        fleet::entry_of(state, plugin.plugin_id) matches Some(found) ==> {
            found.source == "local"@ || inventory_source(found) != Some(plugin.source)
                ==> plugin_act(state, plugin) is Hold
        },
        is_change(plugin_act(state, plugin)) ==> {
            &&& plugin.min_herdr_version is Some
            &&& state.version is Some
            &&& version::compared(state.version->0@, plugin.min_herdr_version->0) matches Some(o)
                && o != Ordering::Less
        },
{
}

/// A plugin counts as current exactly where source, commit and enabled state
/// are the desired ones and it is not linked.
pub proof fn law_sync_current(state: HostState, plugin: Desire)
    ensures
        plugin_act(state, plugin) is Current <==> {
            &&& fleet::entry_of(state, plugin.plugin_id) matches Some(found) && found.source
                != "local"@ && inventory_source(found) == Some(plugin.source) && found.revision
                == Some(plugin.revision) && found.enabled == plugin.enabled
        },
{
}

/// Plugins that only a host has are reported and held, each of them.
pub proof fn law_remote_only_is_held(state: HostState, plugins: Seq<Desire>, n: int)
    requires
        n <= state.plugins.keys().len(),
    ensures
        forall|i: int|
            0 <= i < remote_only_verdicts(state, plugins, n).len()
                ==> (#[trigger] remote_only_verdicts(state, plugins, n)[i]).action is Hold,
        forall|k: int|
            0 <= k < n && !is_desired(plugins, #[trigger] state.plugins.keys()[k]) ==> exists|
                i: int,
            |
                0 <= i < remote_only_verdicts(state, plugins, n).len()
                    && (#[trigger] remote_only_verdicts(state, plugins, n)[i]).plugin_id
                    == state.plugins.keys()[k],
    decreases n,
{
    if n > 0 {
        law_remote_only_is_held(state, plugins, n - 1);
        let rest = remote_only_verdicts(state, plugins, n - 1);
        let all = remote_only_verdicts(state, plugins, n);
        assert forall|i: int| 0 <= i < all.len() implies (#[trigger] all[i]).action is Hold by {
            if i < rest.len() {
                assert(all[i] == rest[i]);
            }
        }
        assert forall|k: int|
            0 <= k < n && !is_desired(plugins, #[trigger] state.plugins.keys()[k]) implies exists|
            i: int,
        |
            0 <= i < all.len() && (#[trigger] all[i]).plugin_id == state.plugins.keys()[k] by {
            if k < n - 1 {
                let i = choose|i: int|
                    0 <= i < rest.len() && (#[trigger] rest[i]).plugin_id
                        == state.plugins.keys()[k];
                assert(all[i] == rest[i]);
            } else {
                assert(all[all.len() - 1].plugin_id == state.plugins.keys()[k]);
            }
        }
    }
}

/// A host as it was surveyed, with the fingerprint of its settings where that
/// was asked for.
#[derive(Debug)]
pub struct Surveyed {
    pub state: HostState,
    pub fingerprint: Option<Result<String, String>>,
}

/// The protocol of this machine: that of the first local host.
pub open spec fn local_protocol_of(hosts: Seq<Surveyed>) -> Option<u32>
    decreases hosts.len(),
{
    if hosts.len() == 0 {
        None
    } else if hosts[0].state.local {
        hosts[0].state.protocol
    } else {
        local_protocol_of(hosts.drop_first())
    }
}

/// A verdict on a host as a whole.
pub open spec fn whole_verdict(
    state: HostState,
    previous: Option<Seq<char>>,
    desired: Option<Seq<char>>,
    action: Act,
) -> Verdict {
    Verdict {
        host: state.host@,
        target: state.target@,
        plugin_id: "*"@,
        source: None,
        previous,
        desired,
        action,
    }
}

pub open spec fn protocol_text(protocol: Option<u32>) -> Option<Seq<char>> {
    match protocol {
        Some(p) => Some(text::decimal(p as nat)),
        None => None,
    }
}

/// Why a host is left alone altogether, if it is.
pub open spec fn host_refusal(state: HostState, local_protocol: Option<u32>) -> Option<Verdict> {
    match (state.error, state.plugin_error) {
        (Some(error), _) => Some(whole_verdict(state, None, None, Act::Offline(error@))),
        (None, Some(error)) => Some(
            whole_verdict(
                state,
                None,
                None,
                Act::Hold("plugin inventory is unknown: "@ + error@),
            ),
        ),
        (None, None) => if local_protocol is Some && state.protocol != local_protocol {
            Some(
                whole_verdict(
                    state,
                    protocol_text(state.protocol),
                    protocol_text(local_protocol),
                    Act::Hold("protocol differs from the source host"@),
                ),
            )
        } else {
            None
        },
    }
}

pub open spec fn settings_act(
    fingerprint: Option<Result<String, String>>,
    expected: Seq<char>,
) -> Act {
    match fingerprint {
        None => Act::Hold("remote settings were not checked"@),
        Some(Err(error)) => Act::Hold(error@),
        Some(Ok(actual)) => if actual@ == expected {
            Act::Current
        } else {
            Act::SyncSettings
        },
    }
}

/// The verdicts on one surveyed host.
pub open spec fn surveyed_verdicts(
    host: Surveyed,
    local_protocol: Option<u32>,
    plugins: Seq<Desire>,
    sync_settings: bool,
    expected: Seq<char>,
) -> Seq<Verdict> {
    match host_refusal(host.state, local_protocol) {
        Some(verdict) => seq![verdict],
        None => if sync_settings {
            host_verdicts(host.state, plugins).push(
                Verdict {
                    host: host.state.host@,
                    target: host.state.target@,
                    plugin_id: "@settings"@,
                    source: None,
                    previous: None,
                    desired: Some(expected),
                    action: settings_act(host.fingerprint, expected),
                },
            )
        } else {
            host_verdicts(host.state, plugins)
        },
    }
}

/// The verdicts on all remote hosts, host by host.
pub open spec fn all_verdicts(
    hosts: Seq<Surveyed>,
    local_protocol: Option<u32>,
    plugins: Seq<Desire>,
    sync_settings: bool,
    expected: Seq<char>,
) -> Seq<Verdict>
    decreases hosts.len(),
{
    if hosts.len() == 0 {
        seq![]
    } else {
        let before = all_verdicts(
            hosts.drop_last(),
            local_protocol,
            plugins,
            sync_settings,
            expected,
        );
        if hosts.last().state.local {
            before
        } else {
            before + surveyed_verdicts(
                hosts.last(),
                local_protocol,
                plugins,
                sync_settings,
                expected,
            )
        }
    }
}

/// The order of a plan: by host, then by plugin.
pub open spec fn plan_order(all: Seq<Verdict>) -> spec_fn(int, int) -> bool {
    |i: int, j: int|
        if all[i].host != all[j].host {
            text::precedes(all[i].host, all[j].host)
        } else {
            !text::precedes(all[j].plugin_id, all[i].plugin_id)
        }
}

pub open spec fn in_plan_order(all: Seq<Verdict>, sorted: Seq<Verdict>) -> bool {
    exists|places: Seq<usize>|
        order::stable_order(places, plan_order(all), all.len()) && sorted
            == #[trigger] order::arranged(all, places)
}

proof fn lemma_plan_order(all: Seq<Verdict>)
    ensures
        order::total_preorder(plan_order(all), all.len()),
{
    let leq = plan_order(all);
    assert forall|i: int, j: int|
        0 <= i < all.len() && 0 <= j < all.len() implies #[trigger] leq(i, j) || leq(j, i) by {
        text::lemma_precedes_total(all[i].host, all[j].host);
        text::lemma_precedes_total(all[i].plugin_id, all[j].plugin_id);
    }
    assert forall|i: int, j: int, k: int|
        0 <= i < all.len() && 0 <= j < all.len() && 0 <= k < all.len() && #[trigger] leq(i, j)
            && #[trigger] leq(j, k) implies leq(i, k) by {
        text::lemma_precedes_total(all[i].host, all[j].host);
        text::lemma_precedes_total(all[j].host, all[k].host);
        text::lemma_precedes_total(all[i].host, all[k].host);
        if all[i].host != all[j].host && all[j].host != all[k].host {
            text::lemma_precedes_transitive(all[i].host, all[j].host, all[k].host);
        }
        if all[i].host == all[j].host && all[j].host == all[k].host {
            text::lemma_not_before_transitive(
                all[i].plugin_id,
                all[j].plugin_id,
                all[k].plugin_id,
            );
        }
    }
}

/// A warning for a host that was asked for and is not in the fleet.
pub open spec fn missing_text(name: Seq<char>) -> Seq<char> {
    "requested host "@ + name + " matches no host of the fleet"@
}

/// The warnings of a plan.
pub open spec fn plan_warnings(
    warnings: Seq<Seq<char>>,
    hosts_file_found: bool,
    missing: Seq<Seq<char>>,
) -> Seq<Seq<char>> {
    let base = if hosts_file_found {
        warnings
    } else {
        warnings.push("no fleet hosts file was found"@)
    };
    base + Seq::new(missing.len(), |i: int| missing_text(missing[i]))
}

pub fn local_protocol(hosts: &Vec<Surveyed>) -> (r: Option<u32>)
    ensures
        r == local_protocol_of(hosts@),
{
    let mut i: usize = 0;
    assert(hosts@.skip(0) =~= hosts@);
    while i < hosts.len()
        invariant
            i <= hosts.len(),
            local_protocol_of(hosts@) == local_protocol_of(hosts@.skip(i as int)),
        decreases hosts.len() - i,
    {
        assert(hosts@.skip(i as int).drop_first() =~= hosts@.skip(i + 1));
        if hosts[i].state.local {
            return hosts[i].state.protocol;
        }
        i = i + 1;
    }
    None
}

fn protocol_string(protocol: Option<u32>) -> (r: Option<String>)
    ensures
        text::opt_text(r) == protocol_text(protocol),
{
    match protocol {
        Some(p) => Some(text::number_text(p as u64)),
        None => None,
    }
}

fn refuse_host(state: &HostState, local_protocol: Option<u32>) -> (r: Option<SyncDecision>)
    ensures
        match r {
            Some(d) => host_refusal(*state, local_protocol) == Some(d@),
            None => host_refusal(*state, local_protocol) is None,
        },
{
    let mut decision = SyncDecision {
        host: state.host.clone(),
        target: state.target.clone(),
        plugin_id: "*".to_string(),
        source: None,
        previous: None,
        desired: None,
        action: SyncAction::Current,
    };
    if let Some(error) = &state.error {
        decision.action = SyncAction::Offline(error.clone());
        return Some(decision);
    }
    if let Some(error) = &state.plugin_error {
        decision.action = SyncAction::Hold(
            "plugin inventory is unknown: ".to_string().concat(error.as_str()),
        );
        return Some(decision);
    }
    if local_protocol.is_some() && state.protocol != local_protocol {
        decision.previous = protocol_string(state.protocol);
        decision.desired = protocol_string(local_protocol);
        decision.action = SyncAction::Hold("protocol differs from the source host".to_string());
        return Some(decision);
    }
    None
}

/// The settings of a host are to be looked at.
pub open spec fn fingerprint_wanted(
    state: HostState,
    local_protocol: Option<u32>,
    sync_settings: bool,
) -> bool {
    sync_settings && !state.local && host_refusal(state, local_protocol) is None
}

/// Whether the settings of a host are asked for: only where they are to be
/// shared and the host is not left alone.
pub fn wants_fingerprint(state: &HostState, local_protocol: Option<u32>, sync_settings: bool) -> (r:
    bool)
    ensures
        r == fingerprint_wanted(*state, local_protocol, sync_settings),
{
    sync_settings && !state.local && refuse_host(state, local_protocol).is_none()
}

fn append_decisions(out: &mut Vec<SyncDecision>, more: Vec<SyncDecision>)
    ensures
        verdicts(final(out)@) == verdicts(old(out)@) + verdicts(more@),
{
    let ghost before = out@;
    let mut more = more;
    let ghost added = more@;
    out.append(&mut more);
    assert(verdicts(out@) =~= verdicts(before) + verdicts(added));
}

fn plan_surveyed(
    host: &Surveyed,
    local_protocol: Option<u32>,
    desired: &DesiredState,
    expected: &str,
) -> (r: Vec<SyncDecision>)
    ensures
        verdicts(r@) == surveyed_verdicts(
            *host,
            local_protocol,
            desires(desired.plugins@),
            desired.settings.sync_update_settings,
            expected@,
        ),
{
    if let Some(decision) = refuse_host(&host.state, local_protocol) {
        let ghost d = decision@;
        let out = vec![decision];
        assert(verdicts(out@) =~= seq![d]);
        return out;
    }
    let mut out = plan_host(&host.state, desired);
    if desired.settings.sync_update_settings {
        let action = match &host.fingerprint {
            None => SyncAction::Hold("remote settings were not checked".to_string()),
            Some(Err(error)) => SyncAction::Hold(error.clone()),
            Some(Ok(actual)) => if text::text_eq(actual.as_str(), expected) {
                SyncAction::Current
            } else {
                SyncAction::SyncSettings
            },
        };
        let decision = SyncDecision {
            host: host.state.host.clone(),
            target: host.state.target.clone(),
            plugin_id: "@settings".to_string(),
            source: None,
            previous: None,
            desired: Some(expected.to_string()),
            action,
        };
        proof {
            lemma_verdicts_push(out@, decision);
        }
        out.push(decision);
    }
    out
}

fn sort_plan(decisions: Vec<SyncDecision>) -> (r: Vec<SyncDecision>)
    ensures
        in_plan_order(verdicts(decisions@), verdicts(r@)),
{
    let ghost all = verdicts(decisions@);
    let ghost leq = plan_order(all);
    proof {
        lemma_plan_order(all);
    }
    let le = |i: usize, j: usize| -> (b: bool)
        requires
            i < decisions@.len(),
            j < decisions@.len(),
        ensures
            b == leq(i as int, j as int),
        {
            if !text::text_eq(decisions[i].host.as_str(), decisions[j].host.as_str()) {
                text::text_precedes(decisions[i].host.as_str(), decisions[j].host.as_str())
            } else {
                !text::text_precedes(
                    decisions[j].plugin_id.as_str(),
                    decisions[i].plugin_id.as_str(),
                )
            }
        };
    let places = order::sort_positions(decisions.len(), &le, Ghost(leq));
    proof {
        order::lemma_order_distinct(places@, leq, decisions@.len());
    }
    let r = order::arrange(decisions, &places);
    assert(verdicts(r@) =~= order::arranged(all, places@));
    r
}

/// Compares connected computers with the desired state without changing them.
/// `expected` is the fingerprint of the desired settings.
pub fn plan(
    path: &str,
    desired: &DesiredState,
    desired_exists: bool,
    warnings: Vec<String>,
    hosts: &Vec<Surveyed>,
    hosts_file_found: bool,
    missing: &Vec<String>,
    expected: &str,
) -> (r: SyncReport)
    ensures
        r.desired_path@ == path@,
        r.desired_exists == desired_exists,
        r.generated_unix_seconds == desired.generated_unix_seconds,
        in_plan_order(
            all_verdicts(
                hosts@,
                local_protocol_of(hosts@),
                desires(desired.plugins@),
                desired.settings.sync_update_settings,
                expected@,
            ),
            verdicts(r.decisions@),
        ),
        text::texts(r.warnings@) == plan_warnings(
            text::texts(warnings@),
            hosts_file_found,
            text::texts(missing@),
        ),
{
    let mut all_warnings = warnings;
    if !hosts_file_found {
        let ghost before = all_warnings@;
        all_warnings.push("no fleet hosts file was found".to_string());
        assert(text::texts(all_warnings@) =~= text::texts(before).push(
            "no fleet hosts file was found"@,
        ));
    }
    let ghost base = text::texts(all_warnings@);
    let ghost extra = Seq::new(
        missing@.len(),
        |i: int| missing_text(text::texts(missing@)[i]),
    );
    let mut i: usize = 0;
    assert(text::texts(all_warnings@) =~= base + extra.take(0));
    while i < missing.len()
        invariant
            i <= missing.len(),
            extra == Seq::new(
                missing@.len(),
                |i: int| missing_text(text::texts(missing@)[i]),
            ),
            text::texts(all_warnings@) == base + extra.take(i as int),
        decreases missing.len() - i,
    {
        let line = "requested host ".to_string().concat(missing[i].as_str()).concat(
            " matches no host of the fleet",
        );
        let ghost before = all_warnings@;
        let ghost l = line@;
        all_warnings.push(line);
        assert(text::texts(all_warnings@) =~= text::texts(before).push(l));
        assert(extra.take(i + 1) =~= extra.take(i as int).push(l));
        assert(text::texts(all_warnings@) =~= base + extra.take(i + 1));
        i = i + 1;
    }
    assert(extra.take(i as int) =~= extra);
    let protocol = local_protocol(hosts);
    let mut decisions: Vec<SyncDecision> = Vec::new();
    let ghost plugins = desires(desired.plugins@);
    let ghost settings = desired.settings.sync_update_settings;
    let mut k: usize = 0;
    assert(hosts@.take(0) =~= seq![]);
    assert(verdicts(decisions@) =~= seq![]);
    while k < hosts.len()
        invariant
            k <= hosts.len(),
            plugins == desires(desired.plugins@),
            settings == desired.settings.sync_update_settings,
            verdicts(decisions@) == all_verdicts(
                hosts@.take(k as int),
                protocol,
                plugins,
                settings,
                expected@,
            ),
        decreases hosts.len() - k,
    {
        assert(hosts@.take(k + 1).drop_last() =~= hosts@.take(k as int));
        assert(hosts@.take(k + 1).last() == hosts@[k as int]);
        if !hosts[k].state.local {
            let more = plan_surveyed(&hosts[k], protocol, desired, expected);
            append_decisions(&mut decisions, more);
        }
        k = k + 1;
    }
    assert(hosts@.take(k as int) =~= hosts@);
    SyncReport {
        desired_path: path.to_string(),
        desired_exists,
        generated_unix_seconds: desired.generated_unix_seconds,
        decisions: sort_plan(decisions),
        warnings: all_warnings,
    }
}

/// A host that could not be reached, whose inventory is unknown, or that speaks
/// another protocol than this machine is left alone altogether.
pub proof fn law_refused_host_is_untouched(
    host: Surveyed,
    local_protocol: Option<u32>,
    plugins: Seq<Desire>,
    sync_settings: bool,
    expected: Seq<char>,
)
    requires
        host.state.error is Some || host.state.plugin_error is Some || (local_protocol is Some
            && host.state.protocol != local_protocol),
    ensures
        forall|i: int|
            #![auto]
            0 <= i < surveyed_verdicts(
                host,
                local_protocol,
                plugins,
                sync_settings,
                expected,
            ).len() ==> !is_change(
                surveyed_verdicts(host, local_protocol, plugins, sync_settings, expected)[i].action,
            ),
        host.state.error is Some ==> surveyed_verdicts(
            host,
            local_protocol,
            plugins,
            sync_settings,
            expected,
        )[0].action is Offline,
{
}

// ---------------------------------------------------------------------------
// Reporting

pub open spec fn some_offline(all: Seq<Verdict>) -> bool {
    exists|i: int| 0 <= i < all.len() && (#[trigger] all[i]).action is Offline
}

pub open spec fn some_hold(all: Seq<Verdict>) -> bool {
    exists|i: int| 0 <= i < all.len() && (#[trigger] all[i]).action is Hold
}

pub open spec fn some_change(all: Seq<Verdict>) -> bool {
    exists|i: int| 0 <= i < all.len() && is_change((#[trigger] all[i]).action)
}

pub open spec fn code_of(all: Seq<Verdict>, warnings: nat) -> i32 {
    if some_offline(all) {
        2
    } else if warnings > 0 || some_change(all) || some_hold(all) {
        1
    } else {
        0
    }
}

/// Whether anything would be changed.
pub fn needs_change(report: &SyncReport) -> (r: bool)
    ensures
        r == some_change(verdicts(report.decisions@)),
{
    let mut i: usize = 0;
    while i < report.decisions.len()
        invariant
            i <= report.decisions.len(),
            forall|k: int|
                0 <= k < i ==> !is_change((#[trigger] verdicts(report.decisions@)[k]).action),
        decreases report.decisions.len() - i,
    {
        match &report.decisions[i].action {
            SyncAction::Install
            | SyncAction::Update
            | SyncAction::Enable
            | SyncAction::Disable
            | SyncAction::SyncSettings => {
                assert(is_change(verdicts(report.decisions@)[i as int].action));
                return true;
            },
            _ => {},
        }
        i = i + 1;
    }
    false
}

fn has_offline(decisions: &Vec<SyncDecision>) -> (r: bool)
    ensures
        r == some_offline(verdicts(decisions@)),
{
    let mut i: usize = 0;
    while i < decisions.len()
        invariant
            i <= decisions.len(),
            forall|k: int|
                0 <= k < i ==> !((#[trigger] verdicts(decisions@)[k]).action is Offline),
        decreases decisions.len() - i,
    {
        if let SyncAction::Offline(_) = &decisions[i].action {
            assert(verdicts(decisions@)[i as int].action is Offline);
            return true;
        }
        i = i + 1;
    }
    false
}

fn has_hold(decisions: &Vec<SyncDecision>) -> (r: bool)
    ensures
        r == some_hold(verdicts(decisions@)),
{
    let mut i: usize = 0;
    while i < decisions.len()
        invariant
            i <= decisions.len(),
            forall|k: int| 0 <= k < i ==> !((#[trigger] verdicts(decisions@)[k]).action is Hold),
        decreases decisions.len() - i,
    {
        if let SyncAction::Hold(_) = &decisions[i].action {
            assert(verdicts(decisions@)[i as int].action is Hold);
            return true;
        }
        i = i + 1;
    }
    false
}

/// The exit code of a plan: a host that is offline is unknown, anything to do
/// or held is incomplete.
pub fn report_code(report: &SyncReport) -> (r: i32)
    ensures
        r == code_of(verdicts(report.decisions@), report.warnings@.len()),
{
    if has_offline(&report.decisions) {
        2
    } else if report.warnings.len() > 0 || needs_change(report) || has_hold(&report.decisions) {
        1
    } else {
        0
    }
}

/// A plan only exits green where every verdict is "current" and nothing was
/// warned of.
pub proof fn law_green_plan_is_current(all: Seq<Verdict>, warnings: nat)
    ensures
        code_of(all, warnings) == 0 <==> warnings == 0 && forall|i: int|
            0 <= i < all.len() ==> (#[trigger] all[i]).action is Current,
{
}

pub open spec fn act_text(act: Act) -> Seq<char> {
    match act {
        Act::Current => "CURRENT"@,
        Act::Install => "INSTALL"@,
        Act::Update => "UPDATE"@,
        Act::Enable => "ENABLE"@,
        Act::Disable => "DISABLE"@,
        Act::SyncSettings => "SETTINGS"@,
        Act::Hold(reason) => "HOLD -- "@ + reason,
        Act::Offline(reason) => "OFFLINE -- "@ + reason,
    }
}

pub open spec fn verdict_text(v: Verdict) -> Seq<char> {
    "  "@ + text::padded_right(v.host, 16) + " "@ + text::padded_right(v.plugin_id, 28) + " "@
        + act_text(v.action)
}

/// The plan, line by line.
pub open spec fn plan_lines(report: SyncReport) -> Seq<Seq<char>> {
    let title = "fleet sync plan from "@ + report.desired_path@;
    seq![
        if report.desired_exists {
            title
        } else {
            title + " (live local state)"@
        },
    ] + Seq::new(
        report.warnings@.len(),
        |i: int| "HOLD    "@ + report.warnings@[i]@,
    ) + Seq::new(
        report.decisions@.len(),
        |i: int| verdict_text(report.decisions@[i]@),
    )
}

fn action_text(action: &SyncAction) -> (r: String)
    ensures
        r@ == act_text(action@),
{
    match action {
        SyncAction::Current => "CURRENT".to_string(),
        SyncAction::Install => "INSTALL".to_string(),
        SyncAction::Update => "UPDATE".to_string(),
        SyncAction::Enable => "ENABLE".to_string(),
        SyncAction::Disable => "DISABLE".to_string(),
        SyncAction::SyncSettings => "SETTINGS".to_string(),
        SyncAction::Hold(reason) => "HOLD -- ".to_string().concat(reason.as_str()),
        SyncAction::Offline(reason) => "OFFLINE -- ".to_string().concat(reason.as_str()),
    }
}

/// Renders a plan, line by line.
pub fn render_report(report: &SyncReport) -> (r: Vec<String>)
    ensures
        text::texts(r@) == plan_lines(*report),
{
    let ghost all = plan_lines(*report);
    let mut out: Vec<String> = Vec::new();
    let mut title = "fleet sync plan from ".to_string().concat(report.desired_path.as_str());
    if !report.desired_exists {
        title = title.concat(" (live local state)");
    }
    out.push(title);
    let mut i: usize = 0;
    assert(text::texts(out@) =~= all.take(1));
    while i < report.warnings.len()
        invariant
            i <= report.warnings.len(),
            all == plan_lines(*report),
            text::texts(out@) == all.take(i + 1),
        decreases report.warnings.len() - i,
    {
        let line = "HOLD    ".to_string().concat(report.warnings[i].as_str());
        let ghost before = text::texts(out@);
        let ghost l = line@;
        out.push(line);
        assert(text::texts(out@) =~= before.push(l));
        assert(all.take(i + 2) =~= all.take(i + 1).push(all[i + 1]));
        i = i + 1;
    }
    let ghost w = report.warnings@.len();
    let mut k: usize = 0;
    while k < report.decisions.len()
        invariant
            k <= report.decisions.len(),
            all == plan_lines(*report),
            w == report.warnings@.len(),
            text::texts(out@) == all.take(w + k + 1),
        decreases report.decisions.len() - k,
    {
        let d = &report.decisions[k];
        let line = "  ".to_string().concat(text::pad_right(d.host.as_str(), 16).as_str()).concat(
            " ",
        ).concat(text::pad_right(d.plugin_id.as_str(), 28).as_str()).concat(" ").concat(
            action_text(&d.action).as_str(),
        );
        let ghost before = text::texts(out@);
        let ghost l = line@;
        out.push(line);
        assert(text::texts(out@) =~= before.push(l));
        assert(all[w + k + 1] == l);
        assert(all.take(w + k + 2) =~= all.take(w + k + 1).push(all[w + k + 1]));
        k = k + 1;
    }
    assert(all.take(w + k + 1) =~= all);
    out
}

// ---------------------------------------------------------------------------
// The command

pub struct CommandRequest<'a> {
    pub mode: &'a str,
    pub hosts: &'a Vec<String>,
    pub json: bool,
    pub yes: bool,
}

/// What a `sync` command sets out to do.
#[derive(Debug, Clone, Copy, PartialEq, Eq, Structural)]
pub enum Course {
    /// Save this machine's state as the desired one.
    Export,
    /// Show the plan and change nothing.
    Plan,
    /// Carry the plan out.
    Apply,
    /// The mode is not known: a usage error.
    Refuse,
}

pub open spec fn course_of(mode: Seq<char>, policy: Policy, yes: bool) -> Course {
    if mode == "export"@ {
        Course::Export
    } else if mode == "plan"@ {
        Course::Plan
    } else if mode == "apply"@ {
        if policy == Policy::Auto || yes {
            Course::Apply
        } else {
            Course::Plan
        }
    } else {
        Course::Refuse
    }
}

/// The message of a refused mode.
pub const MODE_ERROR: &'static str = "sync mode must be plan, apply, or export";

/// Decides what a `sync` command does: nothing is changed unless the policy is
/// `auto` or the user said yes.
pub fn cmd_sync(request: &CommandRequest, policy: Policy) -> (r: Course)
    ensures
        r == course_of(request.mode@, policy, request.yes),
{
    if text::text_eq(request.mode, "export") {
        Course::Export
    } else if text::text_eq(request.mode, "plan") {
        Course::Plan
    } else if text::text_eq(request.mode, "apply") {
        if policy == Policy::Auto || request.yes {
            Course::Apply
        } else {
            Course::Plan
        }
    } else {
        Course::Refuse
    }
}

/// Writing takes `sync apply`, and either the `auto` policy or a yes.
pub proof fn law_sync_writes_only_when_told(mode: Seq<char>, policy: Policy, yes: bool)
    ensures
        course_of(mode, policy, yes) == Course::Apply <==> mode == "apply"@ && (policy
            == Policy::Auto || yes),
{
    reveal_strlit("export");
    reveal_strlit("plan");
    reveal_strlit("apply");
    assert("export"@.len() == 6 && "plan"@.len() == 4 && "apply"@.len() == 5);
}

/// The user is to be told how to let the changes happen.
pub open spec fn hint_is_due(
    mode: Seq<char>,
    policy: Policy,
    yes: bool,
    json: bool,
    decisions: Seq<Verdict>,
) -> bool {
    mode == "apply"@ && policy != Policy::Auto && !yes && some_change(decisions) && !json
}

/// What is said where an apply was asked for and only the plan was shown.
pub fn notify_hint(request: &CommandRequest, policy: Policy, report: &SyncReport) -> (r: Option<
    String,
>)
    ensures
        text::opt_text(r) == (if hint_is_due(
            request.mode@,
            policy,
            request.yes,
            request.json,
            verdicts(report.decisions@),
        ) {
            Some("notify policy: rerun with --yes or set policy = \"auto\" to reconcile"@)
        } else {
            None
        }),
{
    if text::text_eq(request.mode, "apply") && policy != Policy::Auto && !request.yes
        && needs_change(report) && !request.json {
        Some("notify policy: rerun with --yes or set policy = \"auto\" to reconcile".to_string())
    } else {
        None
    }
}

// ---------------------------------------------------------------------------
// Remote operations

pub const REMOTE_HERDR: &'static str =
    "if command -v herdr >/dev/null 2>&1; then H=herdr; elif [ -x \"$HOME/.local/bin/herdr\" ]; then H=\"$HOME/.local/bin/herdr\"; else echo NO_HERDR; exit 10; fi;";

pub const REMOTE_UPDATER: &'static str =
    "if command -v herdr-updater >/dev/null 2>&1; then U=herdr-updater; elif [ -x \"$HOME/.local/bin/herdr-updater\" ]; then U=\"$HOME/.local/bin/herdr-updater\"; else echo NO_UPDATER; exit 11; fi;";

pub const REMOTE_CONFIG_APPLY: &'static str =
    "if command -v herdr >/dev/null 2>&1; then H=herdr; elif [ -x \"$HOME/.local/bin/herdr\" ]; then H=\"$HOME/.local/bin/herdr\"; else exit 10; fi; D=$(\"$H\" plugin config-dir herdr-updater) || exit 12; umask 077; mkdir -p \"$D\" || exit 13; T=\"$D/config.toml.tmp.$$\"; trap 'rm -f \"$T\"' EXIT HUP INT TERM; cat >\"$T\" || exit 14; mv \"$T\" \"$D/config.toml\" || exit 15; trap - EXIT HUP INT TERM";

/// The script that carries an action out on a host, if it takes one.
pub open spec fn operation(plugin: Desire, act: Act) -> Option<Seq<char>> {
    match act {
        Act::Install | Act::Update => Some(
            REMOTE_HERDR@ + " \"$H\" plugin install '"@ + plugin.source + "' --ref '"@
                + plugin.revision + "' --yes && \"$H\" plugin "@ + (if plugin.enabled {
                "enable"@
            } else {
                "disable"@
            }) + " '"@ + plugin.plugin_id + "'"@,
        ),
        Act::Enable => Some(
            REMOTE_HERDR@ + " \"$H\" plugin enable '"@ + plugin.plugin_id + "'"@,
        ),
        Act::Disable => Some(
            REMOTE_HERDR@ + " \"$H\" plugin disable '"@ + plugin.plugin_id + "'"@,
        ),
        _ => None,
    }
}

fn operation_text(plugin: &DesiredPlugin, action: &SyncAction) -> (r: Option<String>)
    ensures
        text::opt_text(r) == operation(plugin@, action@),
{
    match action {
        SyncAction::Install | SyncAction::Update => {
            let state = if plugin.enabled {
                "enable"
            } else {
                "disable"
            };
            Some(
                REMOTE_HERDR.to_string().concat(" \"$H\" plugin install '").concat(
                    plugin.source.as_str(),
                ).concat("' --ref '").concat(plugin.revision.as_str()).concat(
                    "' --yes && \"$H\" plugin ",
                ).concat(state).concat(" '").concat(plugin.plugin_id.as_str()).concat("'"),
            )
        },
        SyncAction::Enable => Some(
            REMOTE_HERDR.to_string().concat(" \"$H\" plugin enable '").concat(
                plugin.plugin_id.as_str(),
            ).concat("'"),
        ),
        SyncAction::Disable => Some(
            REMOTE_HERDR.to_string().concat(" \"$H\" plugin disable '").concat(
                plugin.plugin_id.as_str(),
            ).concat("'"),
        ),
        _ => None,
    }
}

/// What is run on a target for a plugin, if anything is to be done for it.
pub open spec fn plugin_command(target: Seq<char>, plugin: Desire, act: Act, timeout: nat) -> Result<
    Option<Seq<Seq<char>>>,
    Seq<char>,
> {
    if !fleet::alias(target) {
        Err("remote target is invalid"@)
    } else {
        match (desire_fault(plugin), operation(plugin, act)) {
            (Some(fault), _) => Err(fault),
            (None, Some(script)) => Ok(Some(fleet::ssh_command(target, script, timeout))),
            (None, None) => Ok(None),
        }
    }
}

/// The arguments of `ssh` that carry an action out on a host: none where the
/// action takes none, an error where the host or the plugin is not valid.
pub fn apply_plugin(target: &str, plugin: &DesiredPlugin, action: &SyncAction, timeout: u64) -> (r:
    Result<Option<Vec<String>>, String>)
    ensures
        match (plugin_command(target@, plugin@, action@, timeout as nat), r) {
            (Ok(Some(command)), Ok(Some(args))) => text::texts(args@) == command,
            (Ok(None), Ok(None)) => true,
            (Err(error), Err(e)) => e@ == error,
            _ => false,
        },
{
    if !fleet::valid_alias(target) {
        return Err("remote target is invalid".to_string());
    }
    if let Err(e) = validate_desired_plugin(plugin) {
        return Err(e);
    }
    match operation_text(plugin, action) {
        Some(script) => Ok(fleet::ssh_args(target, script.as_str(), timeout)),
        None => Ok(None),
    }
}

/// How long an operation on a host may take.
pub open spec fn remote_patience(timeout: u64) -> u64 {
    if timeout < 120 {
        120
    } else {
        timeout
    }
}

/// The deadline of a remote plugin operation: two minutes at least.
pub fn operation_timeout(timeout: u64) -> (r: u64)
    ensures
        r == remote_patience(timeout),
{
    if timeout < 120 {
        120
    } else {
        timeout
    }
}

/// What is wrong with a plugin on a host after it was brought to its desired
/// state.
pub open spec fn synced_failure(plugin: Desire, after: HostState) -> Option<Seq<char>> {
    match fleet::entry_of(after, plugin.plugin_id) {
        None => Some("plugin is absent after remote operation"@),
        Some(found) => if inventory_source(found) == Some(plugin.source) && found.revision == Some(
            plugin.revision,
        ) && found.enabled == plugin.enabled {
            None
        } else {
            Some("post-sync plugin verification did not match desired state"@)
        },
    }
}

/// What a remote operation came to.
pub fn plugin_ran(run: &Result<Output, ExecError>) -> (r: Result<(), String>)
    ensures
        match herdr::run_failure("remote plugin operation"@, *run) {
            Some(failure) => r matches Err(e) && e@ == failure,
            None => r is Ok,
        },
{
    match herdr::failure_of("remote plugin operation", run) {
        Some(failure) => Err(failure),
        None => Ok(()),
    }
}

/// Whether a host that was looked at again has the plugin in its desired state.
pub fn check_plugin(plugin: &DesiredPlugin, after: &HostState) -> (r: Result<(), String>)
    ensures
        match synced_failure(plugin@, *after) {
            Some(failure) => r matches Err(e) && e@ == failure,
            None => r is Ok,
        },
{
    let found = match after.plugins.get(plugin.plugin_id.as_str()) {
        Some(found) => found,
        None => {
            return Err("plugin is absent after remote operation".to_string());
        },
    };
    let same_source = match source_of(found) {
        Some(s) => text::text_eq(s.as_str(), plugin.source.as_str()),
        None => false,
    };
    let same_revision = match &found.revision {
        Some(s) => text::text_eq(s.as_str(), plugin.revision.as_str()),
        None => false,
    };
    if same_source && same_revision && found.enabled == plugin.enabled {
        Ok(())
    } else {
        Err("post-sync plugin verification did not match desired state".to_string())
    }
}

/// Success is only reported where source, commit and enabled state of the host
/// match.
pub proof fn law_synced_means_matching(plugin: Desire, after: HostState)
    ensures
        synced_failure(plugin, after) is None ==> {
            &&& fleet::entry_of(after, plugin.plugin_id) matches Some(found) && inventory_source(
                found,
            ) == Some(plugin.source) && found.revision == Some(plugin.revision) && found.enabled
                == plugin.enabled
        },
{
}

/// The script that asks a host for the fingerprint of its settings.
pub open spec fn fingerprint_script() -> Seq<char> {
    REMOTE_UPDATER@ + " \"$U\" config-fingerprint"@
}

/// What runs a script on a target.
pub open spec fn remote_command(target: Seq<char>, script: Seq<char>, timeout: nat) -> Result<
    Seq<Seq<char>>,
    Seq<char>,
> {
    if fleet::alias(target) {
        Ok(fleet::ssh_command(target, script, timeout))
    } else {
        Err("remote target is invalid"@)
    }
}

/// The arguments of `ssh` that ask a host for the fingerprint of its settings.
pub fn fingerprint_args(target: &str, timeout: u64) -> (r: Result<Vec<String>, String>)
    ensures
        match remote_command(target@, fingerprint_script(), timeout as nat) {
            Ok(command) => r matches Ok(args) && text::texts(args@) == command,
            Err(error) => r matches Err(e) && e@ == error,
        },
{
    let script = REMOTE_UPDATER.to_string().concat(" \"$U\" config-fingerprint");
    match fleet::ssh_args(target, script.as_str(), timeout) {
        Some(args) => Ok(args),
        None => Err("remote target is invalid".to_string()),
    }
}

/// The fingerprint that a host answered, or what is wrong with the answer.
pub open spec fn fingerprint_of(run: Result<Output, ExecError>) -> Result<Seq<char>, Seq<char>> {
    match run {
        Err(e) => Err("remote settings check: "@ + exec::exec_error_text(e)),
        Ok(out) => if out.code != 0 {
            Err("remote updater is unavailable for settings sync"@)
        } else {
            let value = exec::trimmed_output(out);
            if text::utf8_len(value) == 16 && text::all_in(value, CharClass::Hex) {
                Ok(text::lowercase(value))
            } else {
                Err("remote updater returned an invalid settings fingerprint"@)
            }
        },
    }
}

pub fn remote_fingerprint(run: &Result<Output, ExecError>) -> (r: Result<String, String>)
    ensures
        match fingerprint_of(*run) {
            Ok(value) => r matches Ok(s) && s@ == value,
            Err(error) => r matches Err(e) && e@ == error,
        },
{
    match run {
        Err(e) => Err("remote settings check: ".to_string().concat(e.describe().as_str())),
        Ok(out) => {
            if !out.ok() {
                return Err("remote updater is unavailable for settings sync".to_string());
            }
            let value = out.trimmed();
            if text::byte_len(value) == 16 && text::text_all_in(value, CharClass::Hex) {
                Ok(text::to_lower(value))
            } else {
                Err("remote updater returned an invalid settings fingerprint".to_string())
            }
        },
    }
}

/// The arguments of `ssh` that replace the settings of a host by what comes on
/// standard input.
pub fn settings_args(target: &str, timeout: u64) -> (r: Result<Vec<String>, String>)
    ensures
        match remote_command(target@, REMOTE_CONFIG_APPLY@, timeout as nat) {
            Ok(command) => r matches Ok(args) && text::texts(args@) == command,
            Err(error) => r matches Err(e) && e@ == error,
        },
{
    match fleet::ssh_args(target, REMOTE_CONFIG_APPLY, timeout) {
        Some(args) => Ok(args),
        None => Err("remote target is invalid".to_string()),
    }
}

/// Why a sync of settings failed, if it did.
pub open spec fn settings_run_failure(run: Result<Output, ExecError>) -> Option<Seq<char>> {
    match run {
        Err(error) => Some("remote settings sync: "@ + exec::exec_error_text(error)),
        Ok(out) => if out.code == 0 {
            None
        } else {
            Some("remote settings sync exited "@ + text::signed_decimal(out.code as int))
        },
    }
}

/// What replacing the settings came to.
pub fn settings_ran(run: &Result<Output, ExecError>) -> (r: Result<(), String>)
    ensures
        match settings_run_failure(*run) {
            Some(failure) => r matches Err(e) && e@ == failure,
            None => r is Ok,
        },
{
    match run {
        Err(e) => Err("remote settings sync: ".to_string().concat(e.describe().as_str())),
        Ok(out) => if out.ok() {
            Ok(())
        } else {
            Err(
                "remote settings sync exited ".to_string().concat(
                    text::signed_text(out.code).as_str(),
                ),
            )
        },
    }
}

/// Why the settings of a host are not those expected after a sync.
pub open spec fn settings_failure(actual: Result<String, String>, expected: Seq<char>) -> Option<
    Seq<char>,
> {
    match actual {
        Err(error) => Some(error@),
        Ok(value) => if value@ == expected {
            None
        } else {
            Some("remote settings fingerprint did not match after sync"@)
        },
    }
}

/// Whether the settings of a host are the desired ones after they were
/// replaced.
pub fn apply_settings(actual: Result<String, String>, expected: &str) -> (r: Result<(), String>)
    ensures
        actual matches Err(error) ==> r == Err::<(), String>(error),
        match settings_failure(actual, expected@) {
            None => r is Ok,
            Some(failure) => r matches Err(e) && e@ == failure,
        },
{
    match actual {
        Err(e) => Err(e),
        Ok(value) => if text::text_eq(value.as_str(), expected) {
            Ok(())
        } else {
            Err("remote settings fingerprint did not match after sync".to_string())
        },
    }
}

// ---------------------------------------------------------------------------
// Carrying a plan out

/// What a decision takes.
#[derive(Debug)]
pub enum SyncStep {
    /// Nothing: the host has it already, or it is held.
    Nothing,
    /// Bring this desired plugin to its state.
    Plugin(usize),
    /// Replace the settings.
    Settings,
    /// The plan and the desired state do not fit together.
    Missing,
}

/// What a step came to.
#[derive(Debug)]
pub enum StepOutcome {
    /// There was nothing to do.
    NotRun,
    /// It failed.
    Failed(String),
    /// It succeeded, and this is what recording it came to.
    Recorded(Result<(), String>),
}

pub open spec fn place_of(plugins: Seq<Desire>, id: Seq<char>) -> Option<int>
    decreases plugins.len(),
{
    if plugins.len() == 0 {
        None
    } else if plugins.last().plugin_id == id {
        Some(plugins.len() - 1)
    } else {
        place_of(plugins.drop_last(), id)
    }
}

/// Which step a verdict takes.
pub open spec fn step_is(v: Verdict, plugins: Seq<Desire>, step: SyncStep) -> bool {
    match v.action {
        Act::Install | Act::Update | Act::Enable | Act::Disable => match place_of(
            plugins,
            v.plugin_id,
        ) {
            Some(i) => step matches SyncStep::Plugin(k) && k == i,
            None => step is Missing,
        },
        Act::SyncSettings => step is Settings,
        Act::Hold(_) | Act::Offline(_) | Act::Current => step is Nothing,
    }
}

/// The plan asks for a change of a plugin that is not desired.
pub open spec fn is_missing(v: Verdict, plugins: Seq<Desire>) -> bool {
    step_is(v, plugins, SyncStep::Missing)
}

/// What is counted while a plan is carried out.
pub struct Tally {
    pub changed: Seq<Seq<char>>,
    pub failures: Seq<Seq<char>>,
    pub blocked: Seq<Seq<char>>,
}

pub open spec fn item_text(v: Verdict) -> Seq<char> {
    v.host + "/"@ + v.plugin_id
}

/// The tally after one more decision was dealt with.
pub open spec fn tallied(tally: Tally, v: Verdict, missing: bool, outcome: StepOutcome) -> Tally {
    match v.action {
        Act::Hold(reason) | Act::Offline(reason) => Tally {
            blocked: tally.blocked.push(item_text(v) + ": "@ + reason),
            ..tally
        },
        Act::Current => tally,
        _ => if missing {
            Tally {
                failures: tally.failures.push(item_text(v) + ": missing desired state"@),
                ..tally
            }
        } else {
            match outcome {
                StepOutcome::NotRun => Tally {
                    failures: tally.failures.push(item_text(v) + ": was not run"@),
                    ..tally
                },
                StepOutcome::Failed(e) => Tally {
                    failures: tally.failures.push(item_text(v) + ": "@ + e@),
                    ..tally
                },
                StepOutcome::Recorded(Err(e)) => Tally {
                    failures: tally.failures.push(e@),
                    ..tally
                },
                StepOutcome::Recorded(Ok(_)) => Tally {
                    changed: tally.changed.push(item_text(v)),
                    ..tally
                },
            }
        },
    }
}

/// A plan that is being carried out.
#[derive(Debug)]
pub struct SyncRun {
    pub decisions: Vec<SyncDecision>,
    pub at: usize,
    pub changed: Vec<String>,
    pub failures: Vec<String>,
    pub blocked: Vec<String>,
}

/// The event that records a success.
#[derive(Debug)]
pub struct SyncEvent {
    pub kind: EventKind,
    pub target: String,
    pub previous: String,
    pub current: String,
}

pub open spec fn or_text(v: Option<Seq<char>>, default: Seq<char>) -> Seq<char> {
    match v {
        Some(s) => s,
        None => default,
    }
}

fn item(decision: &SyncDecision) -> (r: String)
    ensures
        r@ == item_text(decision@),
{
    decision.host.clone().concat("/").concat(decision.plugin_id.as_str())
}

/// What is recorded of a decision that was carried out.
pub open spec fn event_of(v: Verdict) -> (EventKind, Seq<char>, Seq<char>, Seq<char>) {
    (
        if v.plugin_id == "@settings"@ {
            EventKind::FleetConfigSynced
        } else {
            EventKind::FleetPluginSynced
        },
        item_text(v),
        or_text(v.previous, "absent"@),
        or_text(v.desired, "current"@),
    )
}

/// The event to record once a decision was carried out.
pub fn event_for(decision: &SyncDecision) -> (r: SyncEvent)
    ensures
        (r.kind, r.target@, r.previous@, r.current@) == event_of(decision@),
{
    SyncEvent {
        kind: if text::text_eq(decision.plugin_id.as_str(), "@settings") {
            EventKind::FleetConfigSynced
        } else {
            EventKind::FleetPluginSynced
        },
        target: item(decision),
        previous: match &decision.previous {
            Some(s) => s.clone(),
            None => "absent".to_string(),
        },
        current: match &decision.desired {
            Some(s) => s.clone(),
            None => "current".to_string(),
        },
    }
}

impl SyncRun {
    pub open spec fn tally(self) -> Tally {
        Tally {
            changed: text::texts(self.changed@),
            failures: text::texts(self.failures@),
            blocked: text::texts(self.blocked@),
        }
    }

    /// Begins to carry a plan out. Its warnings count as blocked.
    pub fn begin(report: SyncReport) -> (r: SyncRun)
        ensures
            r.decisions == report.decisions,
            r.at == 0,
            r.tally() == (Tally {
                changed: seq![],
                failures: seq![],
                blocked: text::texts(report.warnings@),
            }),
    {
        let r = SyncRun {
            decisions: report.decisions,
            at: 0,
            changed: Vec::new(),
            failures: Vec::new(),
            blocked: report.warnings,
        };
        assert(text::texts(r.changed@) =~= seq![]);
        assert(text::texts(r.failures@) =~= seq![]);
        r
    }

    /// The decision that comes next.
    pub fn current(&self) -> (r: Option<&SyncDecision>)
        ensures
            match r {
                Some(d) => self.at < self.decisions@.len() && *d == self.decisions@[self.at as int],
                None => self.at >= self.decisions@.len(),
            },
    {
        if self.at < self.decisions.len() {
            Some(&self.decisions[self.at])
        } else {
            None
        }
    }

    /// What the decision that comes next takes.
    pub fn step(&self, desired: &DesiredState) -> (r: SyncStep)
        ensures
            if self.at < self.decisions@.len() {
                step_is(self.decisions@[self.at as int]@, desires(desired.plugins@), r)
            } else {
                r is Nothing
            },
    {
        let decision = match self.current() {
            Some(decision) => decision,
            None => {
                return SyncStep::Nothing;
            },
        };
        match &decision.action {
            SyncAction::Install | SyncAction::Update | SyncAction::Enable | SyncAction::Disable => {
                match desired_place(&desired.plugins, decision.plugin_id.as_str()) {
                    Some(i) => SyncStep::Plugin(i),
                    None => SyncStep::Missing,
                }
            },
            SyncAction::SyncSettings => SyncStep::Settings,
            SyncAction::Hold(_) | SyncAction::Offline(_) | SyncAction::Current => SyncStep::Nothing,
        }
    }

    /// Takes what the step came to.
    pub fn advance(self, desired: &DesiredState, outcome: StepOutcome) -> (r: SyncRun)
        ensures
            r.decisions == self.decisions,
            if self.at < self.decisions@.len() {
                let v = self.decisions@[self.at as int]@;
                &&& r.at == self.at + 1
                &&& r.tally() == tallied(
                    self.tally(),
                    v,
                    is_missing(v, desires(desired.plugins@)),
                    outcome,
                )
            } else {
                r == self
            },
    {
        broadcast use text::lemma_texts_push;

        let missing = match self.step(desired) {
            SyncStep::Missing => true,
            _ => false,
        };
        let mut run = self;
        if run.at >= run.decisions.len() {
            return run;
        }
        let decision = &run.decisions[run.at];
        let name = item(decision);
        match &decision.action {
            SyncAction::Hold(reason) | SyncAction::Offline(reason) => {
                let line = name.concat(": ").concat(reason.as_str());
                run.blocked.push(line);
            },
            SyncAction::Current => {},
            SyncAction::Install
            | SyncAction::Update
            | SyncAction::Enable
            | SyncAction::Disable
            | SyncAction::SyncSettings => {
                if missing {
                    run.failures.push(name.concat(": missing desired state"));
                } else {
                    match outcome {
                        StepOutcome::NotRun => {
                            run.failures.push(name.concat(": was not run"));
                        },
                        StepOutcome::Failed(e) => {
                            run.failures.push(name.concat(": ").concat(e.as_str()));
                        },
                        StepOutcome::Recorded(Err(e)) => {
                            run.failures.push(e);
                        },
                        StepOutcome::Recorded(Ok(_)) => {
                            run.changed.push(name);
                        },
                    }
                }
            },
        }
        let count = run.decisions.len();
        assert(run.at < count);
        run.at = run.at + 1;
        run
    }

    /// The exit code of a plan that was carried out.
    pub fn exit_code(&self) -> (r: i32)
        ensures
            r == run_code(verdicts(self.decisions@), self.tally()),
    {
        if self.failures.len() > 0 || has_offline(&self.decisions) {
            2
        } else if self.blocked.len() > 0 {
            1
        } else {
            0
        }
    }

    /// What is reported of a plan that was carried out, line by line.
    pub fn render(&self) -> (r: Vec<String>)
        ensures
            text::texts(r@) == run_lines(self.tally()),
    {
        let mut out: Vec<String> = Vec::new();
        assert(text::texts(out@) =~= seq![]);
        push_marked(&mut out, "SYNCED ", &self.changed);
        push_marked(&mut out, "FAILED ", &self.failures);
        push_marked(&mut out, "HOLD ", &self.blocked);
        if self.changed.len() == 0 && self.failures.len() == 0 && self.blocked.len() == 0 {
            let ghost before = out@;
            out.push("fleet already matches the desired state".to_string());
            assert(text::texts(out@) =~= text::texts(before).push(
                "fleet already matches the desired state"@,
            ));
        }
        assert(text::texts(out@) =~= run_lines(self.tally()));
        out
    }
}

fn desired_place(plugins: &Vec<DesiredPlugin>, id: &str) -> (r: Option<usize>)
    ensures
        match r {
            Some(i) => place_of(desires(plugins@), id@) == Some(i as int) && i < plugins.len(),
            None => place_of(desires(plugins@), id@) is None,
        },
{
    let ghost all = desires(plugins@);
    let mut i: usize = plugins.len();
    assert(all.take(i as int) =~= all);
    while i > 0
        invariant
            i <= plugins.len(),
            all == desires(plugins@),
            place_of(all, id@) == place_of(all.take(i as int), id@),
        decreases i,
    {
        assert(all.take(i as int).drop_last() =~= all.take(i - 1));
        assert(all.take(i as int).last() == plugins@[i - 1]@);
        if text::text_eq(plugins[i - 1].plugin_id.as_str(), id) {
            return Some(i - 1);
        }
        i = i - 1;
    }
    None
}

pub open spec fn run_code(all: Seq<Verdict>, tally: Tally) -> i32 {
    if tally.failures.len() > 0 || some_offline(all) {
        2
    } else if tally.blocked.len() > 0 {
        1
    } else {
        0
    }
}

pub open spec fn marked(mark: Seq<char>, items: Seq<Seq<char>>) -> Seq<Seq<char>> {
    Seq::new(items.len(), |i: int| mark + items[i])
}

pub open spec fn run_lines(tally: Tally) -> Seq<Seq<char>> {
    let lines = marked("SYNCED "@, tally.changed) + marked("FAILED "@, tally.failures) + marked(
        "HOLD "@,
        tally.blocked,
    );
    if tally.changed.len() == 0 && tally.failures.len() == 0 && tally.blocked.len() == 0 {
        lines.push("fleet already matches the desired state"@)
    } else {
        lines
    }
}

fn push_marked(out: &mut Vec<String>, mark: &str, items: &Vec<String>)
    ensures
        text::texts(final(out)@) == text::texts(old(out)@) + marked(
            mark@,
            text::texts(items@),
        ),
{
    let ghost before = text::texts(out@);
    let ghost more = marked(mark@, text::texts(items@));
    let mut i: usize = 0;
    assert(text::texts(out@) =~= before + more.take(0));
    while i < items.len()
        invariant
            i <= items.len(),
            more == marked(mark@, text::texts(items@)),
            text::texts(out@) == before + more.take(i as int),
        decreases items.len() - i,
    {
        let line = mark.to_string().concat(items[i].as_str());
        let ghost held = text::texts(out@);
        let ghost l = line@;
        out.push(line);
        assert(text::texts(out@) =~= held.push(l));
        assert(more.take(i + 1) =~= more.take(i as int).push(l));
        assert(text::texts(out@) =~= before + more.take(i + 1));
        i = i + 1;
    }
    assert(more.take(i as int) =~= more);
}

/// A step that failed, or a success that could not be recorded, never leaves
/// the exit code green; and what is counted as changed was applied and
/// recorded.
pub proof fn law_failures_are_not_green(
    all: Seq<Verdict>,
    tally: Tally,
    v: Verdict,
    missing: bool,
    outcome: StepOutcome,
)
    ensures
        is_change(v.action) && !(outcome matches StepOutcome::Recorded(Ok(_)) && !missing)
            ==> run_code(all, tallied(tally, v, missing, outcome)) == 2,
        tallied(tally, v, missing, outcome).changed != tally.changed ==> is_change(v.action)
            && outcome matches StepOutcome::Recorded(Ok(_)),
        v.action is Hold || v.action is Offline ==> run_code(
            all,
            tallied(tally, v, missing, outcome),
        ) != 0,
{
    let after = tallied(tally, v, missing, outcome);
    if after.changed != tally.changed {
        assert(after.changed == tally.changed.push(item_text(v)));
    }
}

/// The tally once the first `n` decisions were dealt with.
pub open spec fn carried_out(
    start: Tally,
    all: Seq<Verdict>,
    plugins: Seq<Desire>,
    outcomes: Seq<StepOutcome>,
    n: int,
) -> Tally
    decreases n,
{
    if n <= 0 {
        start
    } else {
        tallied(
            carried_out(start, all, plugins, outcomes, n - 1),
            all[n - 1],
            is_missing(all[n - 1], plugins),
            outcomes[n - 1],
        )
    }
}

/// The decision needed nothing, or was carried out and recorded.
pub open spec fn is_settled(v: Verdict, plugins: Seq<Desire>, outcome: StepOutcome) -> bool {
    v.action is Current || (is_change(v.action) && !is_missing(v, plugins)
        && outcome matches StepOutcome::Recorded(Ok(_)))
}

proof fn lemma_settled(
    start: Tally,
    all: Seq<Verdict>,
    plugins: Seq<Desire>,
    outcomes: Seq<StepOutcome>,
    n: int,
)
    requires
        0 <= n <= all.len(),
    ensures
        ({
            let tally = carried_out(start, all, plugins, outcomes, n);
            tally.failures.len() == 0 && tally.blocked.len() == 0 <==> start.failures.len() == 0
                && start.blocked.len() == 0 && forall|i: int|
                0 <= i < n ==> is_settled(#[trigger] all[i], plugins, outcomes[i])
        }),
    decreases n,
{
    if n > 0 {
        lemma_settled(start, all, plugins, outcomes, n - 1);
        let before = carried_out(start, all, plugins, outcomes, n - 1);
        let after = carried_out(start, all, plugins, outcomes, n);
        assert(after.failures.len() == 0 && after.blocked.len() == 0 <==> before.failures.len()
            == 0 && before.blocked.len() == 0 && is_settled(
            all[n - 1],
            plugins,
            outcomes[n - 1],
        ));
    }
}

/// Carrying a plan out exits green exactly where nothing was warned of and
/// every decision needed nothing or was carried out, verified and recorded.
pub proof fn law_green_run_is_settled(
    warnings: Seq<Seq<char>>,
    all: Seq<Verdict>,
    plugins: Seq<Desire>,
    outcomes: Seq<StepOutcome>,
)
    requires
        outcomes.len() == all.len(),
    ensures
        ({
            let start = Tally { changed: seq![], failures: seq![], blocked: warnings };
            let tally = carried_out(start, all, plugins, outcomes, all.len() as int);
            run_code(all, tally) == 0 <==> warnings.len() == 0 && forall|i: int|
                0 <= i < all.len() ==> is_settled(#[trigger] all[i], plugins, outcomes[i])
        }),
{
    let start = Tally { changed: seq![], failures: seq![], blocked: warnings };
    lemma_settled(start, all, plugins, outcomes, all.len() as int);
}

// ---------------------------------------------------------------------------
// Quoting

/// A character other than the separator lies in one of the parts.
proof fn lemma_split_holds(s: Seq<char>, c: char, q: char, i: int)
    requires
        q != c,
        0 <= i < s.len(),
        s[i] == q,
    ensures
        exists|k: int|
            0 <= k < text::split_at_char(s, c).len() && (#[trigger] text::split_at_char(
                s,
                c,
            )[k]).contains(q),
    decreases s.len(),
{
    let n = text::find_char(s, c) as int;
    text::lemma_find_char(s, c);
    let parts = text::split_at_char(s, c);
    if n == s.len() {
        assert(parts[0] == s);
        assert(s[i] == q);
    } else if i < n {
        assert(parts[0] == s.take(n));
        assert(s.take(n)[i] == q);
    } else {
        let rest = s.skip(n + 1);
        assert(i != n);
        assert(rest[i - n - 1] == q);
        lemma_split_holds(rest, c, q, i - n - 1);
        let k = choose|k: int|
            0 <= k < text::split_at_char(rest, c).len() && (#[trigger] text::split_at_char(
                rest,
                c,
            )[k]).contains(q);
        assert(parts[k + 1] == text::split_at_char(rest, c)[k]);
    }
}

proof fn lemma_joined_holds(parts: Seq<Seq<char>>, sep: Seq<char>, k: int, q: char)
    requires
        0 <= k < parts.len(),
        parts[k].contains(q),
    ensures
        text::joined(parts, sep).contains(q),
    decreases parts.len(),
{
    let whole = text::joined(parts, sep);
    let i = parts[k].index_of(q);
    assert(parts[k][i] == q);
    if k == parts.len() - 1 {
        let before = whole.len() - parts[k].len();
        assert(whole[before + i] == parts[k][i]);
    } else {
        lemma_joined_holds(parts.drop_last(), sep, k, q);
        let rest = text::joined(parts.drop_last(), sep);
        let j = rest.index_of(q);
        assert(rest[j] == q);
        assert(whole[j] == rest[j]);
    }
}

proof fn lemma_replaced_holds(s: Seq<char>, c: char, with: Seq<char>, q: char)
    requires
        s.contains(q),
        q != c,
    ensures
        text::replaced(s, c, with).contains(q),
    decreases s.len(),
{
    let i = s.index_of(q);
    assert(s[i] == q);
    let whole = text::replaced(s, c, with);
    let rest = text::replaced(s.drop_last(), c, with);
    if i == s.len() - 1 {
        assert(whole[rest.len() as int] == q);
    } else {
        assert(s.drop_last()[i] == q);
        lemma_replaced_holds(s.drop_last(), c, with, q);
        let j = rest.index_of(q);
        assert(rest[j] == q);
        assert(whole[j] == q);
    }
}

proof fn lemma_segment_plain(s: Seq<char>, max: nat)
    requires
        plugins::segment(s, max),
    ensures
        !s.contains('\''),
{
    if s.contains('\'') {
        let i = s.index_of('\'');
        assert(s[i] == '\'');
        assert(CharClass::Segment.holds(s[i]));
    }
}

proof fn lemma_subdir_plain(s: Seq<char>)
    requires
        plugins::subdir(s),
    ensures
        !s.contains('\''),
{
    if s.contains('\'') {
        lemma_replaced_holds(s, '\\', "/"@, '\'');
        let t = text::replaced(s, '\\', "/"@);
        let i = t.index_of('\'');
        assert(t[i] == '\'');
        lemma_split_holds(t, '/', '\'', i);
        let k = choose|k: int|
            0 <= k < text::split_at_char(t, '/').len() && (#[trigger] text::split_at_char(
                t,
                '/',
            )[k]).contains('\'');
        assert(plugins::segment(plugins::path_parts(s)[k], 100));
        lemma_segment_plain(plugins::path_parts(s)[k], 100);
    }
}

/// Nothing of a valid desired plugin can end the quotes it stands between in a
/// remote script.
pub proof fn law_operations_stay_quoted(plugin: Desire)
    requires
        desire_fault(plugin) is None,
    ensures
        !plugin.plugin_id.contains('\''),
        !plugin.source.contains('\''),
        !plugin.revision.contains('\''),
{
    if plugin.plugin_id.contains('\'') {
        let i = plugin.plugin_id.index_of('\'');
        assert(plugin.plugin_id[i] == '\'');
        assert(CharClass::PluginId.holds(plugin.plugin_id[i]));
    }
    if plugin.revision.contains('\'') {
        let i = plugin.revision.index_of('\'');
        assert(plugin.revision[i] == '\'');
        assert(CharClass::Hex.holds(plugin.revision[i]));
    }
    if plugin.source.contains('\'') {
        let source = plugin.source;
        let parts = text::split_at_char(source, '/');
        let i = source.index_of('\'');
        assert(source[i] == '\'');
        lemma_split_holds(source, '/', '\'', i);
        let k = choose|k: int|
            0 <= k < parts.len() && (#[trigger] text::split_at_char(source, '/')[k]).contains(
                '\'',
            );
        lemma_segment_plain(parts[0], 100);
        lemma_segment_plain(parts[1], 100);
        let rest = parts.skip(2);
        assert(rest[k - 2] == parts[k]);
        lemma_joined_holds(rest, "/"@, k - 2, '\'');
        lemma_subdir_plain(text::joined(rest, "/"@));
    }
}

// ---------------------------------------------------------------------------
// What a change does

/// A change is carried out by a script that leaves the plugin as it is desired:
/// an install or update names the very source and commit, and the last thing
/// the script does is to enable the plugin where it is to be enabled and to
/// disable it where it is not. Nothing else takes a script.
pub proof fn law_script_leaves_the_desired_state(plugin: Desire, act: Act)
    ensures
        operation(plugin, act) is Some <==> act is Install || act is Update || act is Enable || act
            is Disable,
        act is Install || act is Update ==> {
            let script = operation(plugin, act)->0;
            &&& text::begins_with(script, REMOTE_HERDR@)
            &&& text::has_text(
                script,
                "plugin install '"@ + plugin.source + "' --ref '"@ + plugin.revision
                    + "' --yes && "@,
            )
            &&& plugin.enabled ==> text::finishes_with(
                script,
                "plugin enable '"@ + plugin.plugin_id + "'"@,
            )
            &&& !plugin.enabled ==> text::finishes_with(
                script,
                "plugin disable '"@ + plugin.plugin_id + "'"@,
            )
        },
        act is Enable ==> text::finishes_with(
            operation(plugin, act)->0,
            "plugin enable '"@ + plugin.plugin_id + "'"@,
        ),
        act is Disable ==> text::finishes_with(
            operation(plugin, act)->0,
            "plugin disable '"@ + plugin.plugin_id + "'"@,
        ),
{
    reveal_strlit("' --yes && \"$H\" plugin ");
    reveal_strlit("' --yes && ");
    reveal_strlit(" \"$H\" plugin install '");
    reveal_strlit("plugin install '");
    reveal_strlit("enable");
    reveal_strlit("disable");
    reveal_strlit(" '");
    reveal_strlit("plugin enable '");
    reveal_strlit("plugin disable '");
    reveal_strlit(" \"$H\" plugin enable '");
    reveal_strlit(" \"$H\" plugin disable '");
    let id = plugin.plugin_id;
    let on = "plugin enable '"@ + id + "'"@;
    let off = "plugin disable '"@ + id + "'"@;
    match act {
        Act::Install | Act::Update => {
            let script = operation(plugin, act)->0;
            let last = if plugin.enabled {
                on
            } else {
                off
            };
            let word = if plugin.enabled {
                "enable"@
            } else {
                "disable"@
            };
            let start = REMOTE_HERDR@ + " \"$H\" plugin install '"@ + plugin.source + "' --ref '"@
                + plugin.revision;
            let end = "' --yes && \"$H\" plugin "@ + word + " '"@ + id + "'"@;
            assert(script =~= start + end);
            assert(script.subrange(0, REMOTE_HERDR@.len() as int) =~= REMOTE_HERDR@);
            assert(script.subrange(script.len() - last.len(), script.len() as int) =~= last);
            let inner = "plugin install '"@ + plugin.source + "' --ref '"@ + plugin.revision
                + "' --yes && "@;
            let at = REMOTE_HERDR@.len() as int + 6;
            assert(script.subrange(at, at + inner.len()) =~= inner);
            assert(text::occurs_at(script, inner, at));
        },
        Act::Enable => {
            let script = operation(plugin, act)->0;
            assert(script.subrange(script.len() - on.len(), script.len() as int) =~= on);
        },
        Act::Disable => {
            let script = operation(plugin, act)->0;
            assert(script.subrange(script.len() - off.len(), script.len() as int) =~= off);
        },
        _ => {},
    }
}

/// A host that did what the script of a change says passes the check that
/// follows: at the source and commit that it installs, and enabled exactly
/// where it ends in enabling the plugin.
pub proof fn law_script_and_check_agree(
    plugin: Desire,
    before: HostState,
    after: HostState,
    found: fleet::FleetFacts,
)
    requires
        is_change(plugin_act(before, plugin)),
        fleet::entry_of(after, plugin.plugin_id) == Some(found),
        inventory_source(found) == Some(plugin.source),
        found.revision == Some(plugin.revision),
        found.enabled == text::finishes_with(
            operation(plugin, plugin_act(before, plugin))->0,
            "plugin enable '"@ + plugin.plugin_id + "'"@,
        ),
    ensures
        synced_failure(plugin, after) is None,
{
    let act = plugin_act(before, plugin);
    let script = operation(plugin, act)->0;
    law_script_leaves_the_desired_state(plugin, act);
    let id = plugin.plugin_id;
    let on = "plugin enable '"@ + id + "'"@;
    let off = "plugin disable '"@ + id + "'"@;
    reveal_strlit("plugin enable '");
    reveal_strlit("plugin disable '");
    if text::finishes_with(script, on) && text::finishes_with(script, off) {
        let n = script.len() as int;
        assert(on[0] == 'p');
        assert(script.subrange(n - on.len(), n)[0] == on[0]);
        assert(script.subrange(n - off.len(), n)[1] == off[1]);
        assert(off[1] == 'l');
        assert(off.len() == on.len() + 1);
        assert(script[n - on.len()] == 'p' && script[n - off.len() + 1] == 'l');
    }
}

/// What is changed is changed for a reason, and what has a reason is changed
/// where the host's Herdr fits: a plugin that is absent is installed, one at
/// another commit updated, one that is off and wanted enabled, and one that is
/// on and unwanted disabled.
pub proof fn law_differences_are_changed(state: HostState, plugin: Desire)
    requires
        plugin.min_herdr_version is Some,
        state.version is Some,
        version::compared(state.version->0@, plugin.min_herdr_version->0) == Some(Ordering::Equal)
            || version::compared(state.version->0@, plugin.min_herdr_version->0) == Some(
            Ordering::Greater,
        ),
    ensures
        plugin_act(state, plugin) is Install <==> fleet::entry_of(state, plugin.plugin_id) is None,
        fleet::entry_of(state, plugin.plugin_id) matches Some(found) ==> {
            let ours = found.source != "local"@ && inventory_source(found) == Some(plugin.source);
            let at_commit = found.revision == Some(plugin.revision);
            &&& plugin_act(state, plugin) is Hold <==> !ours
            &&& plugin_act(state, plugin) is Update <==> ours && !at_commit
            &&& plugin_act(state, plugin) is Enable <==> ours && at_commit && plugin.enabled
                && !found.enabled
            &&& plugin_act(state, plugin) is Disable <==> ours && at_commit && !plugin.enabled
                && found.enabled
        },
{
}

/// A host whose Herdr is unknown, cannot be ordered or is older than the
/// plugin's minimum is not changed, and one that meets the minimum is not held
/// for it.
pub proof fn law_minimum_holds_older_hosts(minimum: Option<Seq<char>>, installed: Option<Seq<char>>)
    ensures
        compatibility_hold(minimum, installed) is None <==> minimum is Some && installed is Some && (
        version::compared(installed->0, minimum->0) == Some(Ordering::Equal) || version::compared(
            installed->0,
            minimum->0,
        ) == Some(Ordering::Greater)),
{
}

/// Every desired plugin has its verdict on every host that is looked at, under
/// its own id, from its commit there to the desired one.
pub proof fn law_every_desire_has_its_verdict(
    host: Surveyed,
    local_protocol: Option<u32>,
    plugins: Seq<Desire>,
    sync_settings: bool,
    expected: Seq<char>,
    i: int,
)
    requires
        0 <= i < plugins.len(),
        host.state.error is None,
        host.state.plugin_error is None,
        local_protocol is Some ==> host.state.protocol == local_protocol,
    ensures
        ({
            let all = surveyed_verdicts(host, local_protocol, plugins, sync_settings, expected);
            &&& i < all.len()
            &&& all[i].host == host.state.host@
            &&& all[i].target == host.state.target@
            &&& all[i].plugin_id == plugins[i].plugin_id
            &&& all[i].source == Some(plugins[i].source)
            &&& all[i].desired == Some(plugins[i].revision)
            &&& all[i].action == plugin_act(host.state, plugins[i])
            &&& fleet::entry_of(host.state, plugins[i].plugin_id) matches Some(found)
                ==> all[i].previous == found.revision
            &&& sync_settings ==> all.last().plugin_id == "@settings"@ && all.last().action
                == settings_act(host.fingerprint, expected) && all.last().desired == Some(expected)
        }),
{
}

/// Settings are current exactly where the host has the expected fingerprint,
/// replaced where it has another, and left alone where it has none.
pub proof fn law_settings_go_by_fingerprint(
    fingerprint: Option<Result<String, String>>,
    expected: Seq<char>,
)
    ensures
        settings_act(fingerprint, expected) is Current <==> (fingerprint matches Some(Ok(f)) && f@
            == expected),
        settings_act(fingerprint, expected) is SyncSettings <==> (fingerprint matches Some(Ok(f))
            && f@ != expected),
        settings_act(fingerprint, expected) is Hold <==> !(fingerprint matches Some(Ok(_))),
{
}

/// Every remote host is gone over and this machine is not: one more host adds
/// its verdicts behind the others.
pub proof fn law_every_remote_host_is_planned(
    hosts: Seq<Surveyed>,
    host: Surveyed,
    local_protocol: Option<u32>,
    plugins: Seq<Desire>,
    sync_settings: bool,
    expected: Seq<char>,
)
    ensures
        ({
            let before = all_verdicts(hosts, local_protocol, plugins, sync_settings, expected);
            let after = all_verdicts(
                hosts.push(host),
                local_protocol,
                plugins,
                sync_settings,
                expected,
            );
            &&& host.state.local ==> after == before
            &&& !host.state.local ==> after == before + surveyed_verdicts(
                host,
                local_protocol,
                plugins,
                sync_settings,
                expected,
            )
        }),
        all_verdicts(seq![], local_protocol, plugins, sync_settings, expected) == Seq::<
            Verdict,
        >::empty(),
{
    assert(hosts.push(host).drop_last() =~= hosts);
}

/// The protocol that hosts are held to is that of this machine.
pub proof fn law_protocol_is_that_of_this_machine(hosts: Seq<Surveyed>)
    ensures
        local_protocol_of(hosts) matches Some(p) ==> exists|i: int|
            0 <= i < hosts.len() && (#[trigger] hosts[i]).state.local && hosts[i].state.protocol
                == Some(p),
        (forall|i: int| 0 <= i < hosts.len() ==> !(#[trigger] hosts[i]).state.local)
            ==> local_protocol_of(hosts) is None,
        hosts.len() > 0 && hosts[0].state.local ==> local_protocol_of(hosts)
            == hosts[0].state.protocol,
    decreases hosts.len(),
{
    if hosts.len() > 0 && !hosts[0].state.local {
        let rest = hosts.drop_first();
        law_protocol_is_that_of_this_machine(rest);
        assert(forall|i: int| 0 <= i < rest.len() ==> #[trigger] rest[i] == hosts[i + 1]);
        if let Some(p) = local_protocol_of(rest) {
            let i = choose|i: int|
                0 <= i < rest.len() && (#[trigger] rest[i]).state.local && rest[i].state.protocol
                    == Some(p);
            assert(hosts[i + 1].state.local);
        }
        if forall|i: int| 0 <= i < hosts.len() ==> !(#[trigger] hosts[i]).state.local {
            assert forall|i: int| 0 <= i < rest.len() implies !(
            #[trigger] rest[i]).state.local by {
                assert(!hosts[i + 1].state.local);
            }
        }
    }
}

/// What an export records is what the host has: a managed plugin's own source,
/// commit, enabled state and minimum, and nothing that is linked or not from
/// GitHub. So a plan from it finds that host current.
pub proof fn law_export_describes_the_host(plugin: InstalledPlugin, state: HostState)
    ensures
        contribution(plugin) matches Contribution::Desired(desire) ==> {
            &&& plugin.source matches Some(s) && s.kind@ == "github"@ && s.owner is Some && s.repo
                is Some && s.resolved_commit is Some && desire.revision == s.resolved_commit->0@
            &&& desire.plugin_id == plugin.plugin_id@
            &&& desire.enabled == plugin.enabled
            &&& desire.min_herdr_version == text::opt_text(plugin.min_herdr_version)
            &&& desire_fault(desire) is None
            &&& fleet::entry_of(state, plugin.plugin_id@) == Some(fleet::fleet_facts(plugin))
                ==> plugin_act(state, desire) is Current
        },
        plugin.source is None || plugin.source->0.kind@ != "github"@ ==> contribution(plugin)
            is Warning,
{
    reveal_strlit("local");
    reveal_strlit("github");
    assert("local"@.len() != "github"@.len());
}

/// A managed plugin with complete and valid metadata is exported, under its
/// directory where it has one.
pub proof fn law_managed_plugins_are_exported(plugin: InstalledPlugin, source: plugins::PluginSource)
    requires
        plugin.source == Some(source),
        source.kind@ == "github"@,
        source.owner is Some,
        source.repo is Some,
        source.resolved_commit is Some,
    ensures
        ({
            let path = source.owner->0@ + "/"@ + source.repo->0@;
            let full = match source.subdir {
                Some(d) => path + "/"@ + d@,
                None => path,
            };
            &&& contribution(plugin) matches Contribution::Desired(desire) ==> desire.source == full
            &&& contribution(plugin) is Desired <==> desire_fault(
                Desire {
                    plugin_id: plugin.plugin_id@,
                    source: full,
                    revision: source.resolved_commit->0@,
                    enabled: plugin.enabled,
                    min_herdr_version: text::opt_text(plugin.min_herdr_version),
                },
            ) is None
            &&& !(contribution(plugin) is Warning)
        }),
{
    reveal_strlit("local");
    reveal_strlit("github");
    assert("local"@.len() != "github"@.len());
}

/// Every installed plugin is exported or warned of, in order, and one fault
/// refuses the export.
pub proof fn law_every_plugin_contributes(plugins: Seq<InstalledPlugin>, plugin: InstalledPlugin)
    ensures
        contributions(seq![]) == Ok::<(Seq<Desire>, Seq<Seq<char>>), Seq<char>>((seq![], seq![])),
        contributions(plugins) matches Ok((desired, warnings)) ==> match contribution(plugin) {
            Contribution::Desired(d) => contributions(plugins.push(plugin)) == Ok::<
                (Seq<Desire>, Seq<Seq<char>>),
                Seq<char>,
            >((desired.push(d), warnings)),
            Contribution::Warning(w) => contributions(plugins.push(plugin)) == Ok::<
                (Seq<Desire>, Seq<Seq<char>>),
                Seq<char>,
            >((desired, warnings.push(w))),
            Contribution::Fault(f) => contributions(plugins.push(plugin)) is Err,
        },
        contributions(plugins) is Err ==> contributions(plugins.push(plugin)) is Err,
{
    assert(plugins.push(plugin).drop_last() =~= plugins);
}

/// A desired state is refused only for a fault: where each plugin is valid and
/// no two share an id, its plugins have none.
pub proof fn law_valid_plugins_have_no_fault(plugins: Seq<Desire>, path: Seq<char>)
    ensures
        desires_fault(plugins, path) is None <==> {
            &&& forall|i: int| 0 <= i < plugins.len() ==> desire_fault(#[trigger] plugins[i]) is None
            &&& forall|i: int, j: int|
                #![trigger plugins[i], plugins[j]]
                0 <= i < j < plugins.len() ==> text::lowercase(plugins[i].plugin_id)
                    != text::lowercase(plugins[j].plugin_id)
        },
    decreases plugins.len(),
{
    if plugins.len() > 0 {
        let rest = plugins.drop_last();
        let n = plugins.len() - 1;
        law_valid_plugins_have_no_fault(rest, path);
        assert(forall|i: int| 0 <= i < rest.len() ==> #[trigger] rest[i] == plugins[i]);
        assert(plugins.last() == plugins[n]);
        if desires_fault(plugins, path) is None {
            assert forall|i: int| 0 <= i < plugins.len() implies desire_fault(
                #[trigger] plugins[i],
            ) is None by {
                if i < n {
                    assert(desire_fault(rest[i]) is None);
                }
            }
            assert forall|i: int, j: int|
                #![trigger plugins[i], plugins[j]]
                0 <= i < j < plugins.len() implies text::lowercase(plugins[i].plugin_id)
                != text::lowercase(plugins[j].plugin_id) by {
                if j < n {
                    assert(rest[i] == plugins[i] && rest[j] == plugins[j]);
                } else {
                    assert(rest[i] == plugins[i]);
                }
            }
        } else if (forall|i: int|
            0 <= i < plugins.len() ==> desire_fault(#[trigger] plugins[i]) is None) && (forall|
            i: int,
            j: int,
        |
            #![trigger plugins[i], plugins[j]]
            0 <= i < j < plugins.len() ==> text::lowercase(plugins[i].plugin_id)
                != text::lowercase(plugins[j].plugin_id)) {
            assert forall|i: int| 0 <= i < rest.len() implies desire_fault(#[trigger] rest[i])
                is None by {
                assert(desire_fault(plugins[i]) is None);
            }
            assert forall|i: int, j: int|
                #![trigger rest[i], rest[j]]
                0 <= i < j < rest.len() implies text::lowercase(rest[i].plugin_id)
                != text::lowercase(rest[j].plugin_id) by {
                assert(rest[i] == plugins[i] && rest[j] == plugins[j]);
            }
            assert(desire_fault(plugins[n]) is None);
            if repeats(rest, plugins[n].plugin_id) {
                let i = choose|i: int|
                    0 <= i < rest.len() && text::lowercase((#[trigger] rest[i]).plugin_id)
                        == text::lowercase(plugins[n].plugin_id);
                assert(plugins[i] == rest[i]);
            }
        }
    }
}

/// A desired state that is not there is no error, one that cannot be read or is
/// not valid is, and one that is valid is used as it is.
pub proof fn law_desired_state_is_used_as_it_is(
    path: Seq<char>,
    file: RegularFile,
    parsed: Result<DesiredState, String>,
)
    ensures
        file is Missing ==> desired_source(path, file, parsed) == Ok::<
            Option<DesiredState>,
            Seq<char>,
        >(None),
        desired_source(path, file, parsed) matches Ok(Some(desired)) ==> parsed == Ok::<
            DesiredState,
            String,
        >(desired) && desired_fault(desired, path) is None,
        (file matches RegularFile::Found { regular, bytes, content } && regular && bytes
            <= MAX_FILE_BYTES && content is Ok) && (parsed matches Ok(d) && desired_fault(d, path)
            is None) ==> desired_source(path, file, parsed) == Ok::<Option<DesiredState>, Seq<char>>(
            Some(parsed->Ok_0),
        ),
        (file matches RegularFile::Found { regular, bytes, content } && regular && bytes
            <= MAX_FILE_BYTES && content is Ok) && (parsed is Err || desired_fault(
            parsed->Ok_0,
            path,
        ) is Some) ==> desired_source(path, file, parsed) is Err,
{
    if file is Missing {
        let said = path + " not found"@;
        reveal_strlit(" not found");
        reveal_strlit("not found");
        let at = path.len() as int + 1;
        assert(said.subrange(at, at + 9) =~= "not found"@);
        assert(text::occurs_at(said, "not found"@, at));
    }
}

/// A fingerprint is taken from a host only as sixteen hexadecimal digits, and
/// compared in lower case.
pub proof fn law_fingerprint_is_taken_whole(run: Result<Output, ExecError>)
    ensures
        fingerprint_of(run) matches Ok(value) ==> (run matches Ok(out) && out.code == 0
            && text::utf8_len(exec::trimmed_output(out)) == 16 && value == text::lowercase(
            exec::trimmed_output(out),
        ) && text::all_in(exec::trimmed_output(out), CharClass::Hex)),
        (run matches Ok(out) && out.code == 0 && text::utf8_len(exec::trimmed_output(out)) == 16
            && text::all_in(exec::trimmed_output(out), CharClass::Hex)) ==> fingerprint_of(run) is Ok,
{
}

/// The plugin that a step works on is the one that the decision is about.
pub proof fn law_step_is_about_its_plugin(plugins: Seq<Desire>, id: Seq<char>)
    ensures
        place_of(plugins, id) matches Some(i) ==> 0 <= i < plugins.len() && plugins[i].plugin_id
            == id,
        place_of(plugins, id) is None <==> forall|i: int|
            0 <= i < plugins.len() ==> (#[trigger] plugins[i]).plugin_id != id,
    decreases plugins.len(),
{
    if plugins.len() > 0 {
        let rest = plugins.drop_last();
        law_step_is_about_its_plugin(rest, id);
        assert(forall|i: int| 0 <= i < rest.len() ==> #[trigger] rest[i] == plugins[i]);
        assert(plugins.last() == plugins[plugins.len() - 1]);
        if place_of(plugins, id) is None {
            assert forall|i: int| 0 <= i < plugins.len() implies (#[trigger] plugins[i]).plugin_id
                != id by {
                if i < rest.len() {
                    assert(rest[i].plugin_id != id);
                }
            }
        } else if forall|i: int|
            0 <= i < plugins.len() ==> (#[trigger] plugins[i]).plugin_id != id {
            assert forall|i: int| 0 <= i < rest.len() implies (#[trigger] rest[i]).plugin_id
                != id by {
                assert(plugins[i].plugin_id != id);
            }
        }
    }
}

/// A change is carried out on its desired plugin, settings as settings, and
/// what is held, offline or current is not touched.
pub proof fn law_step_follows_the_decision(v: Verdict, plugins: Seq<Desire>, step: SyncStep)
    requires
        step_is(v, plugins, step),
    ensures
        v.action is Hold || v.action is Offline || v.action is Current <==> step is Nothing,
        v.action is SyncSettings <==> step is Settings,
        step matches SyncStep::Plugin(k) ==> 0 <= k < plugins.len() && plugins[k as int].plugin_id
            == v.plugin_id && is_change(v.action),
{
    law_step_is_about_its_plugin(plugins, v.plugin_id);
}

/// A plan is worth a look where anything but the current state was found, and
/// more than that where a host was not reached.
pub proof fn law_plan_code_tells_offline(all: Seq<Verdict>, warnings: nat)
    ensures
        code_of(all, warnings) == 2 <==> exists|i: int|
            0 <= i < all.len() && (#[trigger] all[i]).action is Offline,
        0 <= code_of(all, warnings) <= 2,
{
}

/// A plan shows every decision, with its host, its plugin and what is to be
/// done about it, and every warning.
pub proof fn law_plan_shows_every_decision(report: SyncReport, i: int)
    ensures
        0 <= i < report.decisions@.len() ==> {
            let line = plan_lines(report)[1 + report.warnings@.len() + i];
            let v = report.decisions@[i]@;
            &&& text::begins_with(line, "  "@ + v.host)
            &&& text::has_text(line, " "@ + v.plugin_id)
            &&& text::finishes_with(line, " "@ + act_text(v.action))
        },
        0 <= i < report.warnings@.len() ==> plan_lines(report)[1 + i] == "HOLD    "@
            + report.warnings@[i]@,
        plan_lines(report).len() == 1 + report.warnings@.len() + report.decisions@.len(),
        text::begins_with(
            plan_lines(report)[0],
            "fleet sync plan from "@ + report.desired_path@,
        ),
{
    if 0 <= i < report.decisions@.len() {
        let v = report.decisions@[i]@;
        let line = plan_lines(report)[1 + report.warnings@.len() + i];
        assert(line == verdict_text(v));
        reveal_strlit(" ");
        let host = text::padded_right(v.host, 16);
        let id = text::padded_right(v.plugin_id, 28);
        let act = act_text(v.action);
        assert(line.subrange(0, ("  "@ + v.host).len() as int) =~= "  "@ + v.host);
        let at = "  "@.len() + host.len();
        let named = " "@ + v.plugin_id;
        assert(line.subrange(at as int, (at + named.len()) as int) =~= named);
        assert(text::occurs_at(line, named, at as int));
        let end = " "@ + act;
        assert(line.subrange(line.len() - end.len(), line.len() as int) =~= end);
    }
    let title = "fleet sync plan from "@ + report.desired_path@;
    assert(plan_lines(report)[0].subrange(0, title.len() as int) =~= title);
}

/// Each action is called by its name, and a reason is always given.
pub proof fn law_actions_are_named(reason: Seq<char>)
    ensures
        act_text(Act::Current) == "CURRENT"@,
        act_text(Act::Install) == "INSTALL"@,
        act_text(Act::Update) == "UPDATE"@,
        act_text(Act::Enable) == "ENABLE"@,
        act_text(Act::Disable) == "DISABLE"@,
        act_text(Act::SyncSettings) == "SETTINGS"@,
        text::begins_with(act_text(Act::Hold(reason)), "HOLD"@),
        text::finishes_with(act_text(Act::Hold(reason)), reason),
        text::begins_with(act_text(Act::Offline(reason)), "OFFLINE"@),
        text::finishes_with(act_text(Act::Offline(reason)), reason),
{
    reveal_strlit("HOLD -- ");
    reveal_strlit("HOLD");
    reveal_strlit("OFFLINE -- ");
    reveal_strlit("OFFLINE");
    let a = act_text(Act::Hold(reason));
    let b = act_text(Act::Offline(reason));
    assert(a.subrange(0, 4) =~= "HOLD"@);
    assert(b.subrange(0, 7) =~= "OFFLINE"@);
    assert(a.subrange(a.len() - reason.len(), a.len() as int) =~= reason);
    assert(b.subrange(b.len() - reason.len(), b.len() as int) =~= reason);
}

/// What a run reports: each change, each failure and each hold, under its own
/// mark, and that nothing was to be done only where none of them happened.
pub proof fn law_run_reports_everything(tally: Tally, i: int)
    ensures
        0 <= i < tally.changed.len() ==> run_lines(tally)[i] == "SYNCED "@ + tally.changed[i],
        0 <= i < tally.failures.len() ==> run_lines(tally)[tally.changed.len() + i] == "FAILED "@
            + tally.failures[i],
        0 <= i < tally.blocked.len() ==> run_lines(tally)[tally.changed.len()
            + tally.failures.len() + i] == "HOLD "@ + tally.blocked[i],
        tally.changed.len() + tally.failures.len() + tally.blocked.len() > 0 ==> run_lines(
            tally,
        ).len() == tally.changed.len() + tally.failures.len() + tally.blocked.len(),
        tally.changed.len() + tally.failures.len() + tally.blocked.len() == 0 ==> run_lines(tally)
            == seq!["fleet already matches the desired state"@],
{
    if tally.changed.len() + tally.failures.len() + tally.blocked.len() == 0 {
        assert(run_lines(tally) =~= seq!["fleet already matches the desired state"@]);
    }
}

/// What is named in a tally is the host and the plugin; a hold carries its
/// reason and a failure its error.
pub proof fn law_tally_names_what_happened(tally: Tally, v: Verdict, e: String)
    ensures
        v.action matches Act::Hold(reason) ==> tallied(
            tally,
            v,
            false,
            StepOutcome::NotRun,
        ).blocked == tally.blocked.push(v.host + "/"@ + v.plugin_id + ": "@ + reason),
        v.action matches Act::Offline(reason) ==> tallied(
            tally,
            v,
            false,
            StepOutcome::NotRun,
        ).blocked == tally.blocked.push(v.host + "/"@ + v.plugin_id + ": "@ + reason),
        v.action is Current ==> tallied(tally, v, false, StepOutcome::NotRun) == tally,
        is_change(v.action) ==> tallied(tally, v, false, StepOutcome::Failed(e)).failures
            == tally.failures.push(v.host + "/"@ + v.plugin_id + ": "@ + e@),
        is_change(v.action) ==> tallied(tally, v, true, StepOutcome::NotRun).failures.len()
            == tally.failures.len() + 1,
{
}

/// What a sync command does follows from its mode: exporting writes only the
/// desired state, planning nothing, and an unknown mode is refused.
pub proof fn law_mode_is_taken_at_its_word(mode: Seq<char>, policy: Policy, yes: bool)
    ensures
        course_of(mode, policy, yes) == Course::Export <==> mode == "export"@,
        mode == "plan"@ ==> course_of(mode, policy, yes) == Course::Plan,
        course_of(mode, policy, yes) == Course::Refuse <==> mode != "export"@ && mode != "plan"@
            && mode != "apply"@,
{
    reveal_strlit("export");
    reveal_strlit("plan");
    reveal_strlit("apply");
    assert("export"@.len() == 6 && "plan"@.len() == 4 && "apply"@.len() == 5);
}

/// A plan is read host by host, and on a host by plugin.
pub proof fn law_plan_goes_by_host(all: Seq<Verdict>, i: int, j: int)
    ensures
        text::precedes(all[i].host, all[j].host) ==> plan_order(all)(i, j) && !plan_order(all)(j, i),
        all[i].host == all[j].host && text::precedes(all[i].plugin_id, all[j].plugin_id)
            ==> plan_order(all)(i, j) && !plan_order(all)(j, i),
{
    text::lemma_precedes_total(all[i].host, all[j].host);
    text::lemma_precedes_total(all[i].plugin_id, all[j].plugin_id);
}

/// Hosts that were asked for and are not there, and a fleet that was never
/// described, are warned of; so a plan of nothing is not green.
pub proof fn law_absent_hosts_are_warned_of(
    warnings: Seq<Seq<char>>,
    hosts_file_found: bool,
    missing: Seq<Seq<char>>,
    i: int,
)
    ensures
        !hosts_file_found || missing.len() > 0 || warnings.len() > 0 ==> plan_warnings(
            warnings,
            hosts_file_found,
            missing,
        ).len() > 0,
        hosts_file_found && missing.len() == 0 ==> plan_warnings(
            warnings,
            hosts_file_found,
            missing,
        ) == warnings,
        0 <= i < warnings.len() ==> plan_warnings(warnings, hosts_file_found, missing)[i]
            == warnings[i],
        0 <= i < missing.len() ==> plan_warnings(warnings, hosts_file_found, missing).contains(
            "requested host "@ + missing[i] + " matches no host of the fleet"@,
        ),
{
    let all = plan_warnings(warnings, hosts_file_found, missing);
    if hosts_file_found && missing.len() == 0 {
        assert(all =~= warnings);
    }
    if 0 <= i < missing.len() {
        let base: int = if hosts_file_found {
            warnings.len() as int
        } else {
            warnings.len() as int + 1
        };
        assert(all[base + i] == missing_text(missing[i]));
    }
}

/// An export says how many plugins it recorded and where, and names everything
/// that it left out.
pub proof fn law_export_names_what_it_left_out(
    count: nat,
    path: Seq<char>,
    warnings: Seq<Seq<char>>,
    i: int,
)
    ensures
        export_lines(count, path, warnings)[0] == "exported "@ + text::decimal(count)
            + " plugin(s) to "@ + path,
        export_lines(count, path, warnings).len() == warnings.len() + 1,
        0 <= i < warnings.len() ==> export_lines(count, path, warnings)[i + 1] == "HOLD "@
            + warnings[i],
{
}

/// A file is read only where it is there, a regular one and of a bounded size;
/// then it is used as it is.
pub proof fn law_only_regular_files_are_read(path: Seq<char>, file: RegularFile)
    ensures
        regular_text(path, file) is Ok <==> (file matches RegularFile::Found {
            regular,
            bytes,
            content,
        } && regular && bytes <= 1_048_576 && content is Ok),
        (regular_text(path, file) is Ok && file is Found) ==> regular_text(path, file)->Ok_0
            == file->content->Ok_0@,
{
}

/// A desired plugin is valid exactly where it has a plain id, a valid source and
/// a full commit.
pub proof fn law_desire_is_valid_exactly(plugin: Desire)
    ensures
        desire_fault(plugin) is None <==> 0 < plugin.plugin_id.len() && text::utf8_len(
            plugin.plugin_id,
        ) <= 120 && text::all_in(plugin.plugin_id, CharClass::PluginId) && plugins::source_fault(
            plugin.source,
        ) is None && plugins::commit(plugin.revision),
{
}

/// A command goes to a valid target for a valid plugin only, runs the script of
/// the action there, and is given the time that was allowed.
pub proof fn law_remote_commands_go_to_their_target(
    target: Seq<char>,
    plugin: Desire,
    act: Act,
    timeout: nat,
    script: Seq<char>,
)
    ensures
        plugin_command(target, plugin, act, timeout) is Ok <==> fleet::alias(target)
            && desire_fault(plugin) is None,
        plugin_command(target, plugin, act, timeout) matches Ok(Some(args)) ==> args.len() == 6
            && args[4] == target && operation(plugin, act) == Some(args[5]),
        plugin_command(target, plugin, act, timeout) == Ok::<Option<Seq<Seq<char>>>, Seq<char>>(None)
            ==> !(act is Install || act is Update || act is Enable || act is Disable),
        remote_command(target, script, timeout) is Ok <==> fleet::alias(target),
        remote_command(target, script, timeout) matches Ok(args) ==> args.len() == 6 && args[4]
            == target && args[5] == script,
{
}

/// After a sync the settings of a host are right exactly where its fingerprint
/// could be read and is the expected one.
pub proof fn law_settings_are_right_where_they_agree(
    actual: Result<String, String>,
    expected: Seq<char>,
    run: Result<Output, ExecError>,
)
    ensures
        settings_failure(actual, expected) is None <==> (actual matches Ok(value) && value@
            == expected),
        settings_run_failure(run) is None <==> (run matches Ok(out) && out.code == 0),
{
}

/// A change is recorded for its host and plugin, from what was there to what is
/// wanted, and as one of settings exactly where it is one.
pub proof fn law_changes_are_recorded(v: Verdict)
    ensures
        event_of(v).0 == EventKind::FleetConfigSynced <==> v.plugin_id == "@settings"@,
        event_of(v).0 == EventKind::FleetPluginSynced <==> v.plugin_id != "@settings"@,
        event_of(v).1 == item_text(v),
        v.previous matches Some(before) ==> event_of(v).2 == before,
        v.previous is None ==> event_of(v).2 == "absent"@,
        v.desired matches Some(after) ==> event_of(v).3 == after,
        v.desired is None ==> event_of(v).3 == "current"@,
{
}

/// The desired state is stored within the bound and never over something that is
/// no regular file.
pub proof fn law_only_regular_files_are_replaced(path: Seq<char>, bytes: nat, existing: Option<bool>)
    ensures
        replacing_refused(path, bytes, existing) is None <==> bytes <= 1_048_576 && existing
            != Some(false),
{
}

/// The settings of a host are looked at exactly where they are to be synchronised,
/// it is another machine, it could be read and it speaks the same protocol.
pub proof fn law_settings_are_looked_at(
    state: HostState,
    local_protocol: Option<u32>,
    sync_settings: bool,
)
    ensures
        fingerprint_wanted(state, local_protocol, sync_settings) ==> sync_settings && !state.local
            && state.error is None && state.plugin_error is None,
        sync_settings && !state.local && state.error is None && state.plugin_error is None && (
        local_protocol is Some ==> state.protocol == local_protocol) ==> fingerprint_wanted(
            state,
            local_protocol,
            sync_settings,
        ),
        (local_protocol is Some && state.protocol is Some && state.protocol != local_protocol)
            ==> !fingerprint_wanted(state, local_protocol, sync_settings),
{
}

/// An operation gets at least two minutes, and more where more was asked for.
pub proof fn law_operations_get_their_time(timeout: u64)
    ensures
        remote_patience(timeout) >= 120,
        remote_patience(timeout) >= timeout,
        remote_patience(timeout) == 120 || remote_patience(timeout) == timeout,
{
}

/// The hint comes exactly where changes were asked for, there are some, and
/// neither the policy nor the user allowed them; never into JSON.
pub proof fn law_hint_comes_where_changes_wait(
    mode: Seq<char>,
    policy: Policy,
    yes: bool,
    json: bool,
    decisions: Seq<Verdict>,
)
    ensures
        yes || json || policy == Policy::Auto || mode != "apply"@ ==> !hint_is_due(
            mode,
            policy,
            yes,
            json,
            decisions,
        ),
        (forall|i: int| 0 <= i < decisions.len() ==> !is_change((#[trigger] decisions[i]).action))
            ==> !hint_is_due(mode, policy, yes, json, decisions),
        forall|i: int|
            0 <= i < decisions.len() && is_change((#[trigger] decisions[i]).action) && policy
                != Policy::Auto ==> hint_is_due("apply"@, policy, false, false, decisions),
{
}

/// A sorted desired state has the same plugins, and goes by their ids.
pub proof fn law_desired_state_goes_by_id(plugins: Seq<Desire>, sorted: Seq<Desire>, a: int, b: int)
    requires
        in_id_order(plugins, sorted),
        plugins.len() <= usize::MAX,
        0 <= a < b < sorted.len(),
    ensures
        sorted.len() == plugins.len(),
        !text::precedes(sorted[b].plugin_id, sorted[a].plugin_id),
        sorted.contains(plugins[a]) && sorted.contains(plugins[b]),
        plugins.contains(sorted[a]) && plugins.contains(sorted[b]),
{
    let places = choose|places: Seq<usize>|
        order::stable_order(places, desire_order(plugins), plugins.len()) && sorted
            == #[trigger] order::arranged(plugins, places);
    assert(order::belongs_before(desire_order(plugins), places[a] as int, places[b] as int));
    assert(plugins[places[a] as int] == sorted[a] && plugins[places[b] as int] == sorted[b]);
    assert(places.contains(a as usize) && places.contains(b as usize));
    let k = choose|k: int| 0 <= k < places.len() && places[k] == a as usize;
    let l = choose|l: int| 0 <= l < places.len() && places[l] == b as usize;
    assert(sorted[k] == plugins[a] && sorted[l] == plugins[b]);
}

/// A sorted plan goes by host and within a host by plugin.
pub proof fn law_plan_is_sorted(all: Seq<Verdict>, sorted: Seq<Verdict>, a: int, b: int)
    requires
        in_plan_order(all, sorted),
        0 <= a < b < sorted.len(),
    ensures
        sorted.len() == all.len(),
        !text::precedes(sorted[b].host, sorted[a].host),
        sorted[a].host == sorted[b].host ==> !text::precedes(
            sorted[b].plugin_id,
            sorted[a].plugin_id,
        ),
        all.contains(sorted[a]) && all.contains(sorted[b]),
{
    let places = choose|places: Seq<usize>|
        order::stable_order(places, plan_order(all), all.len()) && sorted
            == #[trigger] order::arranged(all, places);
    assert(order::belongs_before(plan_order(all), places[a] as int, places[b] as int));
    assert(all[places[a] as int] == sorted[a] && all[places[b] as int] == sorted[b]);
    text::lemma_precedes_total(sorted[a].host, sorted[b].host);
}

/// The fingerprint of a host is asked of the updater that was found there.
pub proof fn law_fingerprint_is_asked_of_the_updater()
    ensures
        text::begins_with(fingerprint_script(), REMOTE_UPDATER@),
        text::finishes_with(fingerprint_script(), " \"$U\" config-fingerprint"@),
{
    let script = fingerprint_script();
    let tail = " \"$U\" config-fingerprint"@;
    assert(script.subrange(0, REMOTE_UPDATER@.len() as int) =~= REMOTE_UPDATER@);
    assert(script.subrange(script.len() - tail.len(), script.len() as int) =~= tail);
}

/// A desired state is valid exactly where its schema is the known one and both
/// its settings and its plugins are in order.
pub proof fn law_desired_state_is_valid_exactly(desired: DesiredState, path: Seq<char>)
    ensures
        desired_fault(desired, path) is None <==> desired.schema_version == 1
            && config::settings_fault(desired.settings@, path) is None && desires_fault(
            desires(desired.plugins@),
            path,
        ) is None,
{
}

} // verus!
